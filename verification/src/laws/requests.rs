//! What each request promises, in terms of its payload, the graph and the answer.

use vstd::prelude::*;

use crate::dispatch::{
    annotated, dispatched, given_array, linked_all, linked_once, plain_texts, text_array,
    updated, AnswerView, DoneView, FreshView, Numbers, RecordedView,
};
use crate::ipc::{ReplyView, RequestView};
use crate::json::{field, JsonView};
use crate::score::Score;
use crate::seqs::lemma_filter_push;
use crate::store::cycles::reaches;
use crate::store::lookup::{duplicate, normalized, resolved};
use crate::store::model::{
    lemma_position, FrageView, GraphView, NodeType, NodeView, QuelleView,
};
use crate::store::ops::{edge_refusal, polarity_of, question_by_id, question_by_text};
use crate::text::{lowercase, trimmed};

verus! {

/// The operations have different names.
pub proof fn lemma_op_names()
    ensures
        "ping"@[0] == 'p',
        "query"@[0] == 'q',
        "get"@[0] == 'g',
        "record"@[0] == 'r',
        "link"@[0] == 'l',
        "link"@.len() == 4,
        "merge"@[0] == 'm',
        "add_fact"@[0] == 'a',
        "list_documents"@[0] == 'l',
        "list_documents"@.len() == 14,
        "update"@[0] == 'u',
        "current_state"@[0] == 'c',
{
    reveal_strlit("ping");
    reveal_strlit("query");
    reveal_strlit("get");
    reveal_strlit("record");
    reveal_strlit("link");
    reveal_strlit("merge");
    reveal_strlit("add_fact");
    reveal_strlit("list_documents");
    reveal_strlit("update");
    reveal_strlit("current_state");
}

// ---- what a payload says ----

/// The payload has a text under the key.
pub open spec fn says(p: JsonView, key: Seq<char>, t: Seq<char>) -> bool {
    field(p, key) == Some(JsonView::Str(t))
}

/// The texts of a list under a key that are not blank, in their order, trimmed; nothing
/// where there is no list.
pub open spec fn bare_texts(p: JsonView, key: Seq<char>) -> Seq<Seq<char>> {
    match field(p, key) {
        Some(JsonView::Arr(items)) => items.filter(
            |j: JsonView| j is Str && trimmed(j->Str_0).len() > 0,
        ).map_values(|j: JsonView| trimmed(j->Str_0)),
        _ => Seq::empty(),
    }
}

/// The same, as they stand there.
pub open spec fn written_texts(p: JsonView, key: Seq<char>) -> Seq<Seq<char>> {
    match field(p, key) {
        Some(JsonView::Arr(items)) => items.filter(
            |j: JsonView| j is Str && trimmed(j->Str_0).len() > 0,
        ).map_values(|j: JsonView| j->Str_0),
        _ => Seq::empty(),
    }
}

proof fn lemma_plain_texts(items: Seq<JsonView>, n: int)
    requires
        0 <= n <= items.len(),
    ensures
        plain_texts(items, true, n) == items.take(n).filter(
            |j: JsonView| j is Str && trimmed(j->Str_0).len() > 0,
        ).map_values(|j: JsonView| trimmed(j->Str_0)),
        plain_texts(items, false, n) == items.take(n).filter(
            |j: JsonView| j is Str && trimmed(j->Str_0).len() > 0,
        ).map_values(|j: JsonView| j->Str_0),
    decreases n,
{
    let q = |j: JsonView| j is Str && trimmed(j->Str_0).len() > 0;
    let a = |j: JsonView| trimmed(j->Str_0);
    let b = |j: JsonView| j->Str_0;
    if n > 0 {
        let x = items[n - 1];
        lemma_plain_texts(items, n - 1);
        assert(items.take(n) =~= items.take(n - 1).push(x));
        lemma_filter_push(items.take(n - 1), x, q);
        let kept = items.take(n - 1).filter(q);
        assert(kept.push(x).map_values(a) =~= kept.map_values(a).push(a(x)));
        assert(kept.push(x).map_values(b) =~= kept.map_values(b).push(b(x)));
    } else {
        reveal(Seq::filter);
        assert(items.take(0) =~= Seq::empty());
        assert(items.take(0).filter(q).map_values(a) =~= Seq::empty());
        assert(items.take(0).filter(q).map_values(b) =~= Seq::empty());
    }
}

/// The lists of a payload.
pub proof fn lemma_lists(p: JsonView, key: Seq<char>)
    ensures
        bare_texts(p, key).len() > 0 ==> text_array(p, key, true) == Some(bare_texts(p, key)),
        bare_texts(p, key).len() == 0 ==> text_array(p, key, true) is None,
        written_texts(p, key).len() > 0 ==> text_array(p, key, false) == Some(
            written_texts(p, key),
        ),
        written_texts(p, key).len() == 0 ==> text_array(p, key, false) is None,
        given_array(p, key) == (match field(p, key) {
            Some(JsonView::Arr(items)) => Some(bare_texts(p, key)),
            _ => None,
        }),
{
    if let Some(JsonView::Arr(items)) = field(p, key) {
        lemma_plain_texts(items, items.len() as int);
        assert(items.take(items.len() as int) =~= items);
    }
}

// ---- recording ----

/// The node was recorded like this, with what the payload says of its tags and sources and
/// the session that it comes from.
pub open spec fn carries(n: NodeView, p: JsonView, session: Seq<char>) -> bool {
    &&& n.tags == bare_texts(p, "tags"@)
    &&& n.quelle_ids == written_texts(p, "quellen"@)
    &&& trimmed(session).len() > 0 ==> n.session_id == Some(trimmed(session))
    &&& trimmed(session).len() == 0 ==> n.session_id is None
    &&& !n.ueberholt
    &&& !n.erledigt
    &&& n.herkunft == "session"@
}

/// Only the last node of the graph is new.
pub open spec fn adds_one_node(before: GraphView, after: GraphView) -> bool {
    &&& after.nodes.len() == before.nodes.len() + 1
    &&& forall|i: int|
        0 <= i < before.nodes.len() ==> #[trigger] after.nodes[i] == before.nodes[i]
}

/// Adding tags, sources and the session changes the new node alone.
proof fn lemma_annotated(
    g: GraphView,
    h: GraphView,
    n: NodeView,
    p: JsonView,
    session: Seq<char>,
)
    requires
        !g.has_node(n.id),
        h.nodes == g.nodes.push(n),
        n.tags.len() == 0,
        n.quelle_ids.len() == 0,
        n.session_id is None,
    ensures
        ({
            let r = annotated(h, n.id, p, session);
            &&& adds_one_node(g, r)
            &&& r.edges == h.edges && r.fragen == h.fragen && r.quellen == h.quellen
            &&& r.nodes.last() == (NodeView {
                tags: bare_texts(p, "tags"@),
                quelle_ids: written_texts(p, "quellen"@),
                session_id: if trimmed(session).len() > 0 {
                    Some(trimmed(session))
                } else {
                    None
                },
                ..n
            })
        }),
{
    let k = g.nodes.len() as int;
    lemma_position(h.nodes, n.id, 0);
    assert(h.nodes[k].id == n.id);
    assert forall|i: int| 0 <= i < k implies (#[trigger] h.nodes[i]).id != n.id by {
        assert(h.nodes[i] == g.nodes[i]);
    }
    assert(h.position(n.id) == Some(k));
    lemma_lists(p, "tags"@);
    lemma_lists(p, "quellen"@);
    let u = updated(
        h,
        n.id,
        text_array(p, "quellen"@, false),
        text_array(p, "tags"@, true),
    );
    assert(n.tags =~= Seq::empty());
    assert(n.quelle_ids =~= Seq::empty());
    assert(u.nodes[k].tags == bare_texts(p, "tags"@)) by {
        assert(bare_texts(p, "tags"@).len() == 0 ==> bare_texts(p, "tags"@) =~= Seq::empty());
    }
    assert(u.nodes[k].quelle_ids == written_texts(p, "quellen"@)) by {
        assert(written_texts(p, "quellen"@).len() == 0 ==> written_texts(p, "quellen"@)
            =~= Seq::empty());
    }
    lemma_position(u.nodes, n.id, 0);
    assert forall|i: int| 0 <= i < k implies (#[trigger] u.nodes[i]).id != n.id by {
        assert(u.nodes[i] == g.nodes[i]);
    }
    assert(u.nodes[k].id == n.id);
    assert(u.position(n.id) == Some(k));
}

/// Links add edges, and change nothing else.
proof fn lemma_links_add_edges(
    base: GraphView,
    new_id: Seq<char>,
    edge_ids: Seq<Seq<char>>,
    links: Seq<JsonView>,
    n: int,
)
    ensures
        ({
            let r = linked_all(base, new_id, edge_ids, links, n).0;
            &&& r.nodes == base.nodes && r.fragen == base.fragen && r.quellen == base.quellen
            &&& r.edges.len() >= base.edges.len()
            &&& r.edges.take(base.edges.len() as int) == base.edges
        }),
    decreases n,
{
    if n > 0 {
        lemma_links_add_edges(base, new_id, edge_ids, links, n - 1);
        let before = linked_all(base, new_id, edge_ids, links, n - 1).0;
        let after = linked_all(base, new_id, edge_ids, links, n).0;
        assert(after.edges.take(base.edges.len() as int) =~= before.edges.take(
            base.edges.len() as int,
        ));
    } else {
        assert(base.edges.take(base.edges.len() as int) =~= base.edges);
    }
}

/// No node of the type makes the statement yet.
pub open spec fn is_new(g: GraphView, typ: NodeType, inhalt: Seq<char>) -> bool {
    forall|i: int|
        0 <= i < g.nodes.len() && (#[trigger] g.nodes[i]).typ == typ ==> normalized(
            g.nodes[i].inhalt,
        ) != normalized(inhalt)
}

proof fn lemma_no_duplicate(nodes: Seq<NodeView>, typ: NodeType, inhalt: Seq<char>, from: int)
    requires
        0 <= from,
        forall|i: int|
            0 <= i < nodes.len() && (#[trigger] nodes[i]).typ == typ ==> normalized(nodes[i].inhalt)
                != normalized(inhalt),
    ensures
        duplicate(nodes, typ, inhalt, from) is None,
    decreases nodes.len() - from,
{
    if from < nodes.len() {
        assert(nodes[from].typ == typ ==> normalized(nodes[from].inhalt) != normalized(inhalt));
        lemma_no_duplicate(nodes, typ, inhalt, from + 1);
    }
}

/// Recording a new statement adds one node, which is what the payload says, behind the
/// others, which stay as they are; and its links add edges behind the others.
pub proof fn recording_adds_what_is_said(
    r: RequestView,
    numbers: Numbers,
    g: GraphView,
    documents: Seq<QuelleView>,
    f: FreshView,
    code: Seq<char>,
    typ: NodeType,
    inhalt: Seq<char>,
    why: Seq<char>,
)
    requires
        r.op == "record"@,
        says(r.payload, "typ"@, code),
        NodeType::of_code(lowercase(trimmed(code))) == Some(typ),
        says(r.payload, "inhalt"@, inhalt),
        says(r.payload, "begruendung"@, why),
        trimmed(why).len() > 0,
        is_new(g, typ, inhalt),
        !g.has_node(f.node_id),
    ensures
        ({
            let d = dispatched(r, true, numbers, g, documents, f);
            let n = d.graph.nodes.last();
            &&& d.changed && d.save
            &&& adds_one_node(g, d.graph)
            &&& n.id == f.node_id && n.typ == typ && n.inhalt == inhalt && n.begruendung == why
            &&& n.datum == f.datum && n.frage_id is None && n.wert is None
            &&& carries(n, r.payload, r.session_id)
            &&& numbers.basis_score matches Some(b) ==> n.basis_score == b
            &&& numbers.basis_score is None ==> n.basis_score == typ.basis()
            &&& d.graph.fragen == g.fragen && d.graph.quellen == g.quellen
            &&& d.graph.edges.len() >= g.edges.len()
            &&& d.graph.edges.take(g.edges.len() as int) == g.edges
            &&& d.answer is Recorded
            &&& d.answer->what == RecordedView::Node(f.node_id)
            &&& field(r.payload, "links"@) matches Some(JsonView::Arr(items)) ==> {
                let linked = linked_all(
                    GraphView { nodes: d.graph.nodes, ..g },
                    f.node_id,
                    f.edge_ids,
                    items,
                    items.len() as int,
                );
                d.graph == linked.0 && d.answer->links == linked.1
            }
            &&& !(field(r.payload, "links"@) is Some && field(r.payload, "links"@)->0 is Arr)
                ==> d.graph.edges == g.edges
        }),
{
    lemma_op_names();
    lemma_no_duplicate(g.nodes, typ, inhalt, 0);
    let n = crate::store::ops::new_node(
        f.node_id,
        f.datum,
        typ,
        inhalt,
        why,
        numbers.basis_score,
        "session"@,
        None,
        None,
    );
    let h = GraphView { nodes: g.nodes.push(n), ..g };
    lemma_annotated(g, h, n, r.payload, r.session_id);
    let b = annotated(h, f.node_id, r.payload, r.session_id);
    let links = crate::dispatch::links_field(r.payload);
    lemma_links_add_edges(b, f.node_id, f.edge_ids, links, links.len() as int);
    let d = dispatched(r, true, numbers, g, documents, f);
    assert(d.graph.nodes == b.nodes);
    assert(b == (GraphView { nodes: d.graph.nodes, ..g }));
}

/// What a link says under a key, or what stands for it.
pub open spec fn said_or(l: JsonView, key: Seq<char>, t: Seq<char>) -> Seq<char> {
    match field(l, key) {
        Some(JsonView::Str(s)) => s,
        _ => t,
    }
}

/// An inline link leads from the new node to the one it names, and the other way round where
/// the new node is to be the child. It is added where it names a node, its polarity is known
/// and no cycle arises; else nothing is.
pub proof fn inline_links_lead_from_the_parent(
    base: GraphView,
    new_id: Seq<char>,
    edge_ids: Seq<Seq<char>>,
    links: Seq<JsonView>,
    i: int,
)
    requires
        0 <= i < links.len(),
    ensures
        ({
            let before = linked_all(base, new_id, edge_ids, links, i).0;
            let step = linked_all(base, new_id, edge_ids, links, i + 1);
            let after = step.0;
            let ziel = trimmed(said_or(links[i], "ziel"@, Seq::empty()));
            let pol = lowercase(trimmed(said_or(links[i], "polaritaet"@, "stuetzt"@)));
            let child = said_or(links[i], "als"@, "parent"@) == "child"@;
            match resolved(base, ziel) {
                Ok(other) => {
                    let von = if child {
                        other
                    } else {
                        new_id
                    };
                    let zu = if child {
                        new_id
                    } else {
                        other
                    };
                    let fits = ziel.len() > 0 && before.has_node(new_id) && before.has_node(other)
                        && polarity_of(pol) is Some && !reaches(before.edges, zu, von);
                    &&& fits ==> {
                        &&& after.edges.len() == before.edges.len() + 1
                        &&& after.edges.last().id == edge_ids[i]
                        &&& child ==> after.edges.last().von == other && after.edges.last().zu
                            == new_id
                        &&& !child ==> after.edges.last().von == new_id && after.edges.last().zu
                            == other
                        &&& after.edges.last().polaritaet == polarity_of(pol)->0
                        &&& after.edges.last().gewicht == (Score { bits: 0x3ff0_0000_0000_0000 })
                        &&& after.edges.drop_last() == before.edges
                    }
                    &&& !fits ==> after == before
                },
                Err(_) => after == before,
            }
        }),
        linked_all(base, new_id, edge_ids, links, i + 1).1.len() == i + 1,
        linked_all(base, new_id, edge_ids, links, 0).0 == base,
{
    let before = linked_all(base, new_id, edge_ids, links, i);
    let step = linked_once(base, before.0, new_id, edge_ids[i], links[i]);
    lemma_answers_len(base, new_id, edge_ids, links, i);
    assert(linked_all(base, new_id, edge_ids, links, i + 1).0 == step.0);
    if step.0.edges.len() == before.0.edges.len() + 1 {
        assert(step.0.edges.drop_last() =~= before.0.edges);
    }
}

proof fn lemma_answers_len(
    base: GraphView,
    new_id: Seq<char>,
    edge_ids: Seq<Seq<char>>,
    links: Seq<JsonView>,
    n: int,
)
    requires
        0 <= n,
    ensures
        linked_all(base, new_id, edge_ids, links, n).1.len() == n,
    decreases n,
{
    if n > 0 {
        lemma_answers_len(base, new_id, edge_ids, links, n - 1);
    }
}

/// A node that is recorded with one link, as parent or without saying as what, rests on the
/// node that the link names; as child, it is what that node rests on.
pub proof fn recorded_node_is_parent_unless_child(
    r: RequestView,
    numbers: Numbers,
    g: GraphView,
    documents: Seq<QuelleView>,
    f: FreshView,
    code: Seq<char>,
    typ: NodeType,
    inhalt: Seq<char>,
    why: Seq<char>,
    link: JsonView,
    ziel: Seq<char>,
    other: Seq<char>,
)
    requires
        r.op == "record"@,
        says(r.payload, "typ"@, code),
        NodeType::of_code(lowercase(trimmed(code))) == Some(typ),
        says(r.payload, "inhalt"@, inhalt),
        says(r.payload, "begruendung"@, why),
        trimmed(why).len() > 0,
        is_new(g, typ, inhalt),
        !g.has_node(f.node_id),
        field(r.payload, "links"@) == Some(JsonView::Arr(seq![link])),
        says(link, "ziel"@, ziel),
        f.edge_ids.len() > 0,
        dispatched(r, true, numbers, g, documents, f).graph.edges.len() > g.edges.len(),
        resolved(
            GraphView {
                nodes: dispatched(r, true, numbers, g, documents, f).graph.nodes,
                ..g
            },
            trimmed(ziel),
        ) == Ok::<Seq<char>, Seq<char>>(other),
    ensures
        ({
            let edges = dispatched(r, true, numbers, g, documents, f).graph.edges;
            &&& edges.len() == g.edges.len() + 1
            &&& says(link, "als"@, "child"@) ==> edges.last().von == other && edges.last().zu
                == f.node_id
            &&& !says(link, "als"@, "child"@) ==> edges.last().von == f.node_id && edges.last().zu
                == other
        }),
{
    recording_adds_what_is_said(r, numbers, g, documents, f, code, typ, inhalt, why);
    let d = dispatched(r, true, numbers, g, documents, f);
    let base = GraphView { nodes: d.graph.nodes, ..g };
    inline_links_lead_from_the_parent(base, f.node_id, f.edge_ids, seq![link], 0);
    reveal_strlit("parent");
    reveal_strlit("child");
    assert("parent"@[0] == 'p' && "child"@[0] == 'c');
}

/// A statement that a node of the type already makes is not recorded again: the graph stays
/// as it is, and the answer names the first such node.
pub proof fn a_known_statement_is_not_recorded(
    r: RequestView,
    numbers: Numbers,
    g: GraphView,
    documents: Seq<QuelleView>,
    f: FreshView,
    code: Seq<char>,
    inhalt: Seq<char>,
    why: Seq<char>,
    i: int,
)
    requires
        r.op == "record"@,
        says(r.payload, "typ"@, code),
        says(r.payload, "inhalt"@, inhalt),
        says(r.payload, "begruendung"@, why),
        trimmed(why).len() > 0,
        0 <= i < g.nodes.len(),
        NodeType::of_code(lowercase(trimmed(code))) == Some(g.nodes[i].typ),
        normalized(g.nodes[i].inhalt) == normalized(inhalt),
        forall|k: int|
            0 <= k < i && (#[trigger] g.nodes[k]).typ == g.nodes[i].typ ==> normalized(
                g.nodes[k].inhalt,
            ) != normalized(inhalt),
    ensures
        ({
            let d = dispatched(r, true, numbers, g, documents, f);
            &&& d.graph == g && !d.changed && !d.save
            &&& d.answer matches AnswerView::Ready(reply) && reply is Duplicate
                && reply->duplicate_of == g.nodes[i].id && reply->Duplicate_node.id
                == g.nodes[i].id
        }),
{
    lemma_op_names();
    lemma_first_duplicate(g.nodes, g.nodes[i].typ, inhalt, i, 0);
    lemma_position(g.nodes, g.nodes[i].id, 0);
}

proof fn lemma_first_duplicate(
    nodes: Seq<NodeView>,
    typ: NodeType,
    inhalt: Seq<char>,
    i: int,
    from: int,
)
    requires
        0 <= from <= i < nodes.len(),
        nodes[i].typ == typ,
        normalized(nodes[i].inhalt) == normalized(inhalt),
        forall|k: int|
            0 <= k < i && (#[trigger] nodes[k]).typ == typ ==> normalized(nodes[k].inhalt)
                != normalized(inhalt),
    ensures
        duplicate(nodes, typ, inhalt, from) == Some(i),
    decreases i - from,
{
    if from < i {
        assert(nodes[from].typ == typ ==> normalized(nodes[from].inhalt) != normalized(inhalt));
        lemma_first_duplicate(nodes, typ, inhalt, i, from + 1);
    }
}

/// A request was refused: it changes nothing, and says why.
pub open spec fn is_refused(d: DoneView, g: GraphView) -> bool {
    d.graph == g && !d.changed && !d.save && d.answer is Refused
}

/// Nothing is recorded without a known type, a statement and a reason.
pub proof fn records_need_type_statement_and_reason(
    r: RequestView,
    numbers: Numbers,
    g: GraphView,
    documents: Seq<QuelleView>,
    f: FreshView,
)
    requires
        r.op == "record"@,
        (forall|c: Seq<char>| #[trigger]
            says(r.payload, "typ"@, c) ==> NodeType::of_code(lowercase(trimmed(c))) is None) || (
        forall|t: Seq<char>| !#[trigger] says(r.payload, "inhalt"@, t)) || (forall|t: Seq<char>|
         #[trigger]
            says(r.payload, "begruendung"@, t) ==> trimmed(t).len() == 0),
    ensures
        is_refused(dispatched(r, true, numbers, g, documents, f), g),
{
    lemma_op_names();
    let p = r.payload;
    if let Some(JsonView::Str(c)) = field(p, "typ"@) {
        assert(says(p, "typ"@, c));
    }
    if let Some(JsonView::Str(c)) = field(p, "inhalt"@) {
        assert(says(p, "inhalt"@, c));
    }
    if let Some(JsonView::Str(c)) = field(p, "begruendung"@) {
        assert(says(p, "begruendung"@, c));
    }
}

// ---- linking ----

/// A link request adds one edge, behind the others, from the node that `von` names to the
/// one that `zu` names, with the given weight or that of 1.
pub proof fn linking_adds_the_edge(
    r: RequestView,
    numbers: Numbers,
    g: GraphView,
    documents: Seq<QuelleView>,
    f: FreshView,
    von: Seq<char>,
    zu: Seq<char>,
    pol: Seq<char>,
    a: Seq<char>,
    b: Seq<char>,
)
    requires
        r.op == "link"@,
        says(r.payload, "von"@, von),
        says(r.payload, "zu"@, zu),
        says(r.payload, "polaritaet"@, pol),
        resolved(g, von) == Ok::<Seq<char>, Seq<char>>(a),
        resolved(g, zu) == Ok::<Seq<char>, Seq<char>>(b),
    ensures
        ({
            let d = dispatched(r, true, numbers, g, documents, f);
            let fits = g.has_node(a) && g.has_node(b) && !reaches(g.edges, b, a) && polarity_of(
                lowercase(trimmed(pol)),
            ) is Some;
            &&& !fits ==> is_refused(d, g)
            &&& fits ==> {
                let e = d.graph.edges.last();
                &&& d.changed && d.save
                &&& d.graph.nodes == g.nodes && d.graph.fragen == g.fragen && d.graph.quellen
                    == g.quellen
                &&& d.graph.edges.len() == g.edges.len() + 1
                &&& d.graph.edges.drop_last() == g.edges
                &&& e.id == f.edge_ids[0] && e.von == a && e.zu == b
                &&& e.polaritaet == polarity_of(lowercase(trimmed(pol)))->0
                &&& numbers.gewicht matches Some(w) ==> e.gewicht == w
                &&& numbers.gewicht is None ==> e.gewicht == (Score {
                    bits: 0x3ff0_0000_0000_0000,
                })
                &&& d.answer is Recorded && d.answer->what == RecordedView::Edge(e)
            }
        }),
{
    lemma_op_names();
    let d = dispatched(r, true, numbers, g, documents, f);
    if d.graph.edges.len() == g.edges.len() + 1 {
        assert(d.graph.edges.drop_last() =~= g.edges);
    }
}

/// A link request that names no node, or not all it needs, is refused.
pub proof fn links_need_both_nodes_and_a_polarity(
    r: RequestView,
    numbers: Numbers,
    g: GraphView,
    documents: Seq<QuelleView>,
    f: FreshView,
)
    requires
        r.op == "link"@,
        (forall|t: Seq<char>| #[trigger]
            says(r.payload, "von"@, t) ==> resolved(g, t) is Err) || (forall|t: Seq<char>|
         #[trigger]
            says(r.payload, "zu"@, t) ==> resolved(g, t) is Err) || (forall|t: Seq<char>| !
        #[trigger] says(r.payload, "polaritaet"@, t)),
    ensures
        is_refused(dispatched(r, true, numbers, g, documents, f), g),
{
    lemma_op_names();
    let p = r.payload;
    if let Some(JsonView::Str(c)) = field(p, "von"@) {
        assert(says(p, "von"@, c));
    }
    if let Some(JsonView::Str(c)) = field(p, "zu"@) {
        assert(says(p, "zu"@, c));
    }
    if let Some(JsonView::Str(c)) = field(p, "polaritaet"@) {
        assert(says(p, "polaritaet"@, c));
    }
}

/// Why an edge is refused: an end that is no node, a way back from its end to its beginning,
/// or a polarity that is not known; never else.
pub proof fn edges_are_refused_for_cause(
    g: GraphView,
    von: Seq<char>,
    zu: Seq<char>,
    pol: Seq<char>,
)
    ensures
        edge_refusal(g, von, zu, pol) is None <==> {
            &&& exists|i: int| 0 <= i < g.nodes.len() && (#[trigger] g.nodes[i]).id == von
            &&& exists|i: int| 0 <= i < g.nodes.len() && (#[trigger] g.nodes[i]).id == zu
            &&& !reaches(g.edges, zu, von)
            &&& polarity_of(lowercase(trimmed(pol))) is Some
        },
        von == zu ==> edge_refusal(g, von, zu, pol) is Some,
{
    if von == zu {
        let path = seq![von];
        assert(crate::store::cycles::leads(g.edges, path, von, von));
    }
}

/// Every word for a polarity means one of three, each of which is a word for itself.
pub proof fn polarities_have_their_words(code: Seq<char>)
    ensures
        polarity_of("supports"@) == Some("supports"@),
        polarity_of("stuetzt"@) == Some("supports"@),
        polarity_of("stützt"@) == Some("supports"@),
        polarity_of("+"@) == Some("supports"@),
        polarity_of("pro"@) == Some("supports"@),
        polarity_of("contradicts"@) == Some("contradicts"@),
        polarity_of("widerspricht"@) == Some("contradicts"@),
        polarity_of("-"@) == Some("contradicts"@),
        polarity_of("contra"@) == Some("contradicts"@),
        polarity_of("con"@) == Some("contradicts"@),
        polarity_of("replaces"@) == Some("replaces"@),
        polarity_of("supersedes"@) == Some("replaces"@),
        polarity_of("ersetzt"@) == Some("replaces"@),
        polarity_of("überholt"@) == Some("replaces"@),
        polarity_of("ueberholt"@) == Some("replaces"@),
        polarity_of(code) matches Some(p) ==> polarity_of(p) == Some(p),
{
    reveal_strlit("supports");
    reveal_strlit("stuetzt");
    reveal_strlit("stützt");
    reveal_strlit("+");
    reveal_strlit("pro");
    reveal_strlit("contradicts");
    reveal_strlit("widerspricht");
    reveal_strlit("-");
    reveal_strlit("contra");
    reveal_strlit("con");
    reveal_strlit("replaces");
    reveal_strlit("supersedes");
    reveal_strlit("ersetzt");
    reveal_strlit("überholt");
    reveal_strlit("ueberholt");
    assert("supports"@.len() == 8 && "stuetzt"@.len() == 7 && "stützt"@.len() == 6 && "+"@.len()
        == 1 && "pro"@.len() == 3);
    assert("supports"@[0] == 's' && "stuetzt"@[0] == 's' && "stützt"@[0] == 's' && "+"@[0] == '+'
        && "pro"@[0] == 'p');
    assert("contradicts"@[0] == 'c' && "widerspricht"@[0] == 'w' && "-"@[0] == '-' && "contra"@[0]
        == 'c' && "con"@[0] == 'c');
    assert("replaces"@[0] == 'r' && "supersedes"@[0] == 's' && "supersedes"@.len() == 10
        && "ersetzt"@[0] == 'e' && "überholt"@[0] == 'ü' && "ueberholt"@[0] == 'u');
}

// ---- correcting ----

/// A correction sets what it spells out, in the one node that it names, and leaves all else
/// of that node, and every other node, edge, question and document, as it is.
pub proof fn corrections_set_what_is_said(
    r: RequestView,
    numbers: Numbers,
    g: GraphView,
    documents: Seq<QuelleView>,
    f: FreshView,
    id: Seq<char>,
    i: int,
)
    requires
        r.op == "update"@,
        says(r.payload, "id"@, id),
        trimmed(id).len() > 0,
        0 <= i < g.nodes.len(),
        g.nodes[i].id == id,
        forall|k: int| 0 <= k < i ==> (#[trigger] g.nodes[k]).id != id,
        forall|c: Seq<char>| #[trigger]
            says(r.payload, "typ"@, c) ==> NodeType::of_code(lowercase(trimmed(c))) is Some,
    ensures
        ({
            let p = r.payload;
            let d = dispatched(r, true, numbers, g, documents, f);
            let a = g.nodes[i];
            let b = d.graph.nodes[i];
            &&& d.changed && d.save
            &&& d.answer is Recorded && d.answer->what == RecordedView::Node(id)
            &&& d.graph.nodes.len() == g.nodes.len()
            &&& forall|k: int|
                0 <= k < g.nodes.len() && k != i ==> #[trigger] d.graph.nodes[k] == g.nodes[k]
            &&& d.graph.edges == g.edges && d.graph.fragen == g.fragen && d.graph.quellen
                == g.quellen
            &&& b.id == a.id && b.datum == a.datum && b.score == a.score && b.status == a.status
                && b.herkunft == a.herkunft && b.frage_id == a.frage_id && b.wert == a.wert
                && b.session_id == a.session_id
            &&& match field(p, "inhalt"@) {
                Some(JsonView::Str(t)) => b.inhalt == t,
                _ => b.inhalt == a.inhalt,
            }
            &&& match field(p, "begruendung"@) {
                Some(JsonView::Str(t)) => if trimmed(t).len() > 0 {
                    b.begruendung == t
                } else {
                    b.begruendung == a.begruendung
                },
                _ => b.begruendung == a.begruendung,
            }
            &&& match field(p, "typ"@) {
                Some(JsonView::Str(t)) => Some(b.typ) == NodeType::of_code(lowercase(trimmed(t))),
                _ => b.typ == a.typ,
            }
            &&& match field(p, "tags"@) {
                Some(JsonView::Arr(_)) => if bare_texts(p, "tags"@).len() > 0 {
                    b.tags == bare_texts(p, "tags"@)
                } else {
                    b.tags == a.tags
                },
                _ => b.tags == a.tags,
            }
            &&& match field(p, "quellen"@) {
                Some(JsonView::Arr(_)) => b.quelle_ids == bare_texts(p, "quellen"@),
                _ => b.quelle_ids == a.quelle_ids,
            }
            &&& match field(p, "ueberholt"@) {
                Some(JsonView::Bool(x)) => b.ueberholt == x,
                _ => b.ueberholt == a.ueberholt,
            }
            &&& match field(p, "erledigt"@) {
                Some(JsonView::Bool(x)) => b.erledigt == x,
                _ => b.erledigt == a.erledigt,
            }
            &&& numbers.basis_score matches Some(x) ==> b.basis_score == x
            &&& numbers.basis_score is None ==> b.basis_score == a.basis_score
        }),
{
    lemma_op_names();
    lemma_position(g.nodes, id, 0);
    assert(g.position(id) == Some(i));
    lemma_lists(r.payload, "tags"@);
    lemma_lists(r.payload, "quellen"@);
    if let Some(JsonView::Str(c)) = field(r.payload, "typ"@) {
        assert(says(r.payload, "typ"@, c));
    }
}

/// A correction without an id, of a node that is not there, or to a type that is not known,
/// is refused.
pub proof fn corrections_need_a_node(
    r: RequestView,
    numbers: Numbers,
    g: GraphView,
    documents: Seq<QuelleView>,
    f: FreshView,
)
    requires
        r.op == "update"@,
        (forall|t: Seq<char>| #[trigger]
            says(r.payload, "id"@, t) ==> trimmed(t).len() == 0 || !g.has_node(t)) || (exists|
            c: Seq<char>,
        | #[trigger]
            says(r.payload, "typ"@, c) && NodeType::of_code(lowercase(trimmed(c))) is None),
    ensures
        is_refused(dispatched(r, true, numbers, g, documents, f), g),
{
    lemma_op_names();
    if let Some(JsonView::Str(c)) = field(r.payload, "id"@) {
        assert(says(r.payload, "id"@, c));
        lemma_position(g.nodes, c, 0);
    }
}

// ---- facts ----

/// A fact is a node that answers a question with a value. The question is the one that is
/// there with these words, or a new one; the value is added to its values where it is not
/// among them. Nothing else changes.
pub proof fn facts_answer_their_question(
    r: RequestView,
    numbers: Numbers,
    g: GraphView,
    documents: Seq<QuelleView>,
    f: FreshView,
    frage: Seq<char>,
    wert: Seq<char>,
    inhalt: Seq<char>,
    why: Seq<char>,
)
    requires
        r.op == "add_fact"@,
        says(r.payload, "frage"@, frage),
        says(r.payload, "wert"@, wert),
        says(r.payload, "inhalt"@, inhalt),
        says(r.payload, "begruendung"@, why),
        trimmed(why).len() > 0,
        !g.has_node(f.node_id),
        forall|i: int, j: int|
            0 <= i < j < g.fragen.len() ==> (#[trigger] g.fragen[i]).id != (
            #[trigger] g.fragen[j]).id,
        forall|i: int| 0 <= i < g.fragen.len() ==> (#[trigger] g.fragen[i]).id != f.frage_id,
    ensures
        ({
            let d = dispatched(r, true, numbers, g, documents, f);
            let n = d.graph.nodes.last();
            &&& d.changed && d.save
            &&& adds_one_node(g, d.graph)
            &&& n.id == f.node_id && n.typ == NodeType::Fact && n.inhalt == inhalt && n.begruendung
                == why && n.datum == f.datum && n.wert == Some(wert)
            &&& carries(n, r.payload, r.session_id)
            &&& numbers.basis_score matches Some(b) ==> n.basis_score == b
            &&& numbers.basis_score is None ==> n.basis_score == NodeType::Fact.basis()
            &&& d.graph.edges == g.edges && d.graph.quellen == g.quellen
            &&& d.answer is Recorded && d.answer->what == RecordedView::Bare(f.node_id)
            &&& forall|i: int|
                0 <= i < g.fragen.len() && (#[trigger] g.fragen[i]).inhalt == frage && (forall|
                    k: int,
                |
                    0 <= k < i ==> (#[trigger] g.fragen[k]).inhalt != frage) ==> {
                    &&& n.frage_id == Some(g.fragen[i].id)
                    &&& d.graph.fragen.len() == g.fragen.len()
                    &&& d.graph.fragen[i].id == g.fragen[i].id && d.graph.fragen[i].inhalt == frage
                    &&& g.fragen[i].werte.contains(wert) ==> d.graph.fragen[i].werte
                        == g.fragen[i].werte
                    &&& !g.fragen[i].werte.contains(wert) ==> d.graph.fragen[i].werte
                        == g.fragen[i].werte.push(wert)
                    &&& forall|k: int|
                        0 <= k < g.fragen.len() && k != i ==> #[trigger] d.graph.fragen[k]
                            == g.fragen[k]
                }
            &&& (forall|k: int|
                0 <= k < g.fragen.len() ==> (#[trigger] g.fragen[k]).inhalt != frage) ==> {
                &&& n.frage_id == Some(f.frage_id)
                &&& d.graph.fragen == g.fragen.push(
                    FrageView { id: f.frage_id, inhalt: frage, werte: seq![wert] },
                )
            }
        }),
{
    lemma_op_names();
    let h = crate::store::ops::with_fact(
        g,
        f.frage_id,
        f.node_id,
        f.datum,
        frage,
        wert,
        inhalt,
        why,
        numbers.basis_score,
        "session"@,
    );
    let n = h.nodes.last();
    assert(h.nodes =~= g.nodes.push(n));
    lemma_annotated(g, h, n, r.payload, r.session_id);
    let d = dispatched(r, true, numbers, g, documents, f);
    assert forall|i: int|
        0 <= i < g.fragen.len() && (#[trigger] g.fragen[i]).inhalt == frage && (forall|k: int|
            0 <= k < i ==> (#[trigger] g.fragen[k]).inhalt != frage) implies {
        &&& d.graph.nodes.last().frage_id == Some(g.fragen[i].id)
        &&& d.graph.fragen.len() == g.fragen.len()
        &&& d.graph.fragen[i].id == g.fragen[i].id && d.graph.fragen[i].inhalt == frage
        &&& g.fragen[i].werte.contains(wert) ==> d.graph.fragen[i].werte == g.fragen[i].werte
        &&& !g.fragen[i].werte.contains(wert) ==> d.graph.fragen[i].werte
            == g.fragen[i].werte.push(wert)
        &&& forall|k: int|
            0 <= k < g.fragen.len() && k != i ==> #[trigger] d.graph.fragen[k] == g.fragen[k]
    } by {
        lemma_question_by_text(g.fragen, frage, i, 0);
        lemma_question_by_id(g.fragen, i, 0);
    }
    if forall|k: int| 0 <= k < g.fragen.len() ==> (#[trigger] g.fragen[k]).inhalt != frage {
        lemma_no_question(g.fragen, frage, 0);
        let q = FrageView { id: f.frage_id, inhalt: frage, werte: Seq::empty() };
        let all = g.fragen.push(q);
        assert forall|i: int, j: int| 0 <= i < j < all.len() implies (#[trigger] all[i]).id != (
        #[trigger] all[j]).id by {
            if j == g.fragen.len() {
                assert(g.fragen[i].id != f.frage_id);
            } else {
                assert(g.fragen[i].id != g.fragen[j].id);
            }
        }
        lemma_question_by_id(all, g.fragen.len() as int, 0);
        assert(all[g.fragen.len() as int].id == f.frage_id);
        assert(q.werte.push(wert) =~= seq![wert]);
        assert(all.update(
            g.fragen.len() as int,
            FrageView { werte: seq![wert], ..q },
        ) =~= g.fragen.push(FrageView { werte: seq![wert], ..q }));
    }
}

proof fn lemma_question_by_text(fragen: Seq<FrageView>, inhalt: Seq<char>, i: int, from: int)
    requires
        0 <= from <= i < fragen.len(),
        fragen[i].inhalt == inhalt,
        forall|k: int| 0 <= k < i ==> (#[trigger] fragen[k]).inhalt != inhalt,
    ensures
        question_by_text(fragen, inhalt, from) == Some(i),
    decreases i - from,
{
    if from < i {
        assert(fragen[from].inhalt != inhalt);
        lemma_question_by_text(fragen, inhalt, i, from + 1);
    }
}

proof fn lemma_no_question(fragen: Seq<FrageView>, inhalt: Seq<char>, from: int)
    requires
        0 <= from,
        forall|k: int| 0 <= k < fragen.len() ==> (#[trigger] fragen[k]).inhalt != inhalt,
    ensures
        question_by_text(fragen, inhalt, from) is None,
    decreases fragen.len() - from,
{
    if from < fragen.len() {
        assert(fragen[from].inhalt != inhalt);
        lemma_no_question(fragen, inhalt, from + 1);
    }
}

proof fn lemma_question_by_id(fragen: Seq<FrageView>, i: int, from: int)
    requires
        0 <= from <= i < fragen.len(),
        forall|a: int, b: int|
            0 <= a < b < fragen.len() ==> (#[trigger] fragen[a]).id != (#[trigger] fragen[b]).id,
    ensures
        question_by_id(fragen, fragen[i].id, from) == Some(i),
    decreases i - from,
{
    if from < i {
        assert(fragen[from].id != fragen[i].id);
        lemma_question_by_id(fragen, i, from + 1);
    }
}

/// A fact without a question, a value, a statement or a reason is refused.
pub proof fn facts_need_question_value_and_reason(
    r: RequestView,
    numbers: Numbers,
    g: GraphView,
    documents: Seq<QuelleView>,
    f: FreshView,
)
    requires
        r.op == "add_fact"@,
        (forall|t: Seq<char>| !#[trigger] says(r.payload, "frage"@, t)) || (forall|t: Seq<char>| !
        #[trigger] says(r.payload, "wert"@, t)) || (forall|t: Seq<char>| !#[trigger] says(
            r.payload,
            "inhalt"@,
            t,
        )) || (forall|t: Seq<char>| #[trigger]
            says(r.payload, "begruendung"@, t) ==> trimmed(t).len() == 0),
    ensures
        is_refused(dispatched(r, true, numbers, g, documents, f), g),
{
    lemma_op_names();
    let p = r.payload;
    if let Some(JsonView::Str(c)) = field(p, "frage"@) {
        assert(says(p, "frage"@, c));
    }
    if let Some(JsonView::Str(c)) = field(p, "wert"@) {
        assert(says(p, "wert"@, c));
    }
    if let Some(JsonView::Str(c)) = field(p, "inhalt"@) {
        assert(says(p, "inhalt"@, c));
    }
    if let Some(JsonView::Str(c)) = field(p, "begruendung"@) {
        assert(says(p, "begruendung"@, c));
    }
}

// ---- merging and listing ----

/// A merge request takes away the node that `from` names and keeps the one that `into`
/// names.
pub proof fn merge_requests_keep_the_target(
    r: RequestView,
    numbers: Numbers,
    g: GraphView,
    documents: Seq<QuelleView>,
    f: FreshView,
    from: Seq<char>,
    into: Seq<char>,
    a: Seq<char>,
    b: Seq<char>,
)
    requires
        r.op == "merge"@,
        says(r.payload, "from"@, from),
        says(r.payload, "into"@, into),
        trimmed(from).len() > 0,
        trimmed(into).len() > 0,
        resolved(g, from) == Ok::<Seq<char>, Seq<char>>(a),
        resolved(g, into) == Ok::<Seq<char>, Seq<char>>(b),
    ensures
        ({
            let d = dispatched(r, true, numbers, g, documents, f);
            match crate::store::merge::merge_refusal(g, a, b) {
                Some(t) => is_refused(d, g) && d.answer == AnswerView::Refused(t),
                None => {
                    &&& d.graph == crate::store::merge::merged(g, a, b)
                    &&& d.changed && d.save
                    &&& d.answer is Recorded && d.answer->what == RecordedView::Node(b)
                    &&& !d.graph.has_node(a)
                    &&& d.graph.has_node(b)
                },
            }
        }),
{
    lemma_op_names();
    if crate::store::merge::merge_refusal(g, a, b) is None {
        crate::store::merge::merge_leaves_nothing_behind(g, a, b);
    }
}

/// Listing documents notes them, and answers with them; nothing else changes.
pub proof fn listing_notes_the_documents(
    r: RequestView,
    numbers: Numbers,
    g: GraphView,
    documents: Seq<QuelleView>,
    f: FreshView,
)
    requires
        r.op == "list_documents"@,
    ensures
        ({
            let d = dispatched(r, true, numbers, g, documents, f);
            &&& d.graph.quellen == documents
            &&& d.graph.nodes == g.nodes && d.graph.edges == g.edges && d.graph.fragen == g.fragen
            &&& !d.changed && d.save
            &&& d.answer matches AnswerView::Ready(reply) && reply is Documents && reply->documents
                == documents
        }),
{
    lemma_op_names();
}

// ---- what is said about it ----

/// Each link of a new node is reported in a line: that it was made, between which nodes
/// and how; that it was left out, for want of a target; or why it could not be made.
pub proof fn links_report_how_they_went(
    base: GraphView,
    new_id: Seq<char>,
    edge_ids: Seq<Seq<char>>,
    links: Seq<JsonView>,
    i: int,
)
    requires
        0 <= i < links.len(),
    ensures
        ({
            let before = linked_all(base, new_id, edge_ids, links, i);
            let step = linked_all(base, new_id, edge_ids, links, i + 1);
            let ziel = trimmed(said_or(links[i], "ziel"@, Seq::empty()));
            let pol = said_or(links[i], "polaritaet"@, "stuetzt"@);
            let child = said_or(links[i], "als"@, "parent"@) == "child"@;
            &&& step.1.drop_last() == before.1
            &&& ziel.len() == 0 ==> step.1.last() == "link skipped: missing 'ziel'"@
            &&& ziel.len() > 0 ==> match resolved(base, ziel) {
                Err(e) => step.1.last() == "link to '"@ + ziel + "' failed: "@ + e,
                Ok(other) => {
                    let von = if child {
                        other
                    } else {
                        new_id
                    };
                    let zu = if child {
                        new_id
                    } else {
                        other
                    };
                    match edge_refusal(before.0, von, zu, pol) {
                        Some(e) => step.1.last() == "link to '"@ + ziel + "' failed: "@ + e,
                        None => step.1.last() == "linked "@ + von + " -"@ + pol + "-> "@ + zu,
                    }
                },
            }
        }),
{
    let before = linked_all(base, new_id, edge_ids, links, i);
    let step = linked_all(base, new_id, edge_ids, links, i + 1);
    assert(step.1.drop_last() =~= before.1);
}

/// A statement that is known already is answered with the node that says it, its id and
/// the hints on the graph.
pub proof fn known_statements_are_pointed_out(
    r: RequestView,
    numbers: Numbers,
    g: GraphView,
    documents: Seq<QuelleView>,
    f: FreshView,
)
    requires
        r.op == "record"@,
    ensures
        dispatched(r, true, numbers, g, documents, f).answer matches AnswerView::Ready(
            reply,
        ) ==> (reply matches ReplyView::Duplicate { node, duplicate_of, hints: given }
            && duplicate_of == node.id && given == crate::store::hygiene::hints(g)
            && g.nodes.contains(node)),
{
    lemma_op_names();
    if let (Some(typ), Some(inhalt), Some(_)) = (
        crate::dispatch::typ_field(r.payload),
        crate::json::text_field(r.payload, "inhalt"@),
        crate::dispatch::nonempty_text(r.payload, "begruendung"@),
    ) {
        if let Some(i) = crate::store::lookup::duplicate(g.nodes, typ, inhalt, 0) {
            lemma_duplicate_bounds(g.nodes, typ, inhalt, 0);
            lemma_position(g.nodes, g.nodes[i].id, 0);
        }
    }
}

proof fn lemma_duplicate_bounds(
    nodes: Seq<NodeView>,
    typ: NodeType,
    inhalt: Seq<char>,
    from: int,
)
    requires
        0 <= from,
    ensures
        crate::store::lookup::duplicate(nodes, typ, inhalt, from) matches Some(i) ==> from <= i
            < nodes.len(),
    decreases nodes.len() - from,
{
    if from < nodes.len() {
        lemma_duplicate_bounds(nodes, typ, inhalt, from + 1);
    }
}

/// The request is refused with the text.
pub open spec fn is_told(d: DoneView, t: Seq<char>) -> bool {
    d.answer == AnswerView::Refused(t)
}

/// A request that lacks something is told what.
pub proof fn refusals_say_what_is_missing(
    r: RequestView,
    numbers: Numbers,
    g: GraphView,
    documents: Seq<QuelleView>,
    f: FreshView,
    key: Seq<char>,
    t: Seq<char>,
    c: Seq<char>,
)
    ensures
        ({
            let d = dispatched(r, true, numbers, g, documents, f);
            let p = r.payload;
            let lacks = !(field(p, key) matches Some(JsonView::Str(_)));
            &&& r.op == "link"@ && lacks && (key == "von"@ || key == "zu"@ || key == "polaritaet"@)
                ==> is_told(d, "link: requires 'von', 'zu', 'polaritaet'"@)
            &&& r.op == "merge"@ && lacks && (key == "from"@ || key == "into"@) ==> is_told(
                d,
                "merge: requires 'from' and 'into'"@,
            )
            &&& r.op == "add_fact"@ && lacks && (key == "frage"@ || key == "wert"@ || key
                == "inhalt"@) ==> is_told(d, "add_fact: requires 'frage', 'wert', 'inhalt'"@)
            &&& r.op == "update"@ && lacks && key == "id"@ ==> is_told(
                d,
                "update: requires 'id' (from query_knowledge)"@,
            )
            &&& r.op == "update"@ && says(p, "id"@, t) && trimmed(t).len() > 0 && says(
                p,
                "typ"@,
                c,
            ) && NodeType::of_code(lowercase(trimmed(c))) is None ==> is_told(
                d,
                "update: invalid typ '"@ + c + "'"@,
            )
            &&& r.op == "update"@ && says(p, "id"@, t) && trimmed(t).len() > 0 && !(field(p, "typ"@)
                matches Some(JsonView::Str(_))) && !g.has_node(t) ==> is_told(
                d,
                "node not found: "@ + t,
            )
            &&& r.op == "get"@ && !(field(p, "ids"@) matches Some(JsonView::Arr(_))) ==> is_told(
                d,
                "get: requires 'ids' (node ids from query_knowledge)"@,
            )
        }),
{
    lemma_op_names();
    lemma_position(g.nodes, t, 0);
}

/// A refused edge is told the first cause: the node that is missing, the cycle, or the
/// word that is no polarity.
pub proof fn refused_edges_name_the_cause(
    g: GraphView,
    von: Seq<char>,
    zu: Seq<char>,
    pol: Seq<char>,
)
    ensures
        ({
            let word = lowercase(trimmed(pol));
            let told = edge_refusal(g, von, zu, pol);
            &&& !g.has_node(von) ==> told == Some("node not found: "@ + von)
            &&& g.has_node(von) && !g.has_node(zu) ==> told == Some("node not found: "@ + zu)
            &&& g.has_node(von) && g.has_node(zu) && reaches(g.edges, zu, von) ==> told == Some(
                "edge would create a cycle (graph must stay a DAG)"@,
            )
            &&& g.has_node(von) && g.has_node(zu) && !reaches(g.edges, zu, von) && polarity_of(word)
                is None ==> told == Some(
                "invalid polaritaet '"@ + word
                    + "' (use 'supports', 'contradicts' or 'replaces')"@,
            )
        }),
{
}

/// A reference that names no node is refused under the name of the end that it was given
/// for, the first end first.
pub proof fn refused_references_name_the_end(
    r: RequestView,
    numbers: Numbers,
    g: GraphView,
    documents: Seq<QuelleView>,
    f: FreshView,
    a: Seq<char>,
    b: Seq<char>,
    pol: Seq<char>,
)
    ensures
        ({
            let d = dispatched(r, true, numbers, g, documents, f);
            let p = r.payload;
            &&& r.op == "link"@ && says(p, "von"@, a) && says(p, "zu"@, b) && says(
                p,
                "polaritaet"@,
                pol,
            ) ==> {
                &&& resolved(g, a) matches Err(e) ==> is_told(d, "link 'von': "@ + e)
                &&& resolved(g, a) is Ok ==> (resolved(g, b) matches Err(e) ==> is_told(
                    d,
                    "link 'zu': "@ + e,
                ))
                &&& resolved(g, a) matches Ok(von) ==> (resolved(g, b) matches Ok(zu) ==> (
                edge_refusal(g, von, zu, pol) matches Some(e) ==> is_told(d, e)))
            }
            &&& r.op == "merge"@ && says(p, "from"@, a) && says(p, "into"@, b) && trimmed(a).len()
                > 0 && trimmed(b).len() > 0 ==> {
                &&& resolved(g, a) matches Err(e) ==> is_told(d, "merge 'from': "@ + e)
                &&& resolved(g, a) is Ok ==> (resolved(g, b) matches Err(e) ==> is_told(
                    d,
                    "merge 'into': "@ + e,
                ))
            }
        }),
{
    lemma_op_names();
}

/// A record is told what it lacks: a type that is one, a statement, or a reason.
pub proof fn refused_records_name_what_is_missing(
    r: RequestView,
    numbers: Numbers,
    g: GraphView,
    documents: Seq<QuelleView>,
    f: FreshView,
    code: Seq<char>,
    inhalt: Seq<char>,
)
    requires
        r.op == "record"@,
    ensures
        ({
            let d = dispatched(r, true, numbers, g, documents, f);
            let p = r.payload;
            let typed = says(p, "typ"@, code) && NodeType::of_code(lowercase(trimmed(code))) is Some;
            &&& !(field(p, "typ"@) matches Some(JsonView::Str(_))) || (says(p, "typ"@, code)
                && !typed) ==> is_told(
                d,
                "record: missing/invalid 'typ' (entscheidung|erkenntnis|fakt|beobachtung|recherche|vermutung)"@,
            )
            &&& typed && !(field(p, "inhalt"@) matches Some(JsonView::Str(_))) ==> is_told(
                d,
                "record: missing 'inhalt'"@,
            )
            &&& typed && says(p, "inhalt"@, inhalt) && !(field(p, "begruendung"@) matches Some(
                JsonView::Str(_),
            )) ==> is_told(d, crate::dispatch::RECORD_WHY@)
        }),
{
    lemma_op_names();
}

} // verus!

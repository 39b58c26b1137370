//! What is promised of replies: what they hold, how they are spelled, and how the command
//! line, the tools and the page answer.

use vstd::prelude::*;

use crate::cli::{capped, decision_lines, envelope_json, index_text, question_lines};
use crate::dispatch::{query_notes, questions, response, AnswerView, RecordedView};
use crate::ipc::{
    CompactEdgeView, CompactNodeView, DecisionView, EntityView, QuestionView, ReplyView,
};
use crate::json::{field, json_error, json_of_text, texts_json, JsonView};
use crate::mcp::{
    argument, choice_argument, content_json, error_json, get_schema, list_argument, message_step,
    no_args_schema, op_of_tool, query_schema, result_json, tool_json, tool_list, StepView,
};
use crate::store::filter::{filtered, no_filter, FilterView};
use crate::store::hygiene::hints;
use crate::store::model::{EdgeView, FrageView, GraphView, NodeView, QuelleView};
use crate::store::state::active_decisions;
use crate::text::{decimal, trimmed};
use crate::view::{request_path, response_head, route_of, shown_project, Route};
use crate::wire::{
    compact_edge_json, compact_node_json, decision_json, edge_json, frage_json, graph_json,
    node_head, node_json, node_tail, quelle_json, question_json, reply_view, score_json,
};

verus! {

// ---- the reply to a request ----

/// A refusal is answered with its reason; a reading with what was read; and what was
/// recorded is shown as it stands in the graph, with the hints on it. A fact is shown
/// without its sources, tags and session.
pub proof fn replies_show_what_came_of_it(
    g: GraphView,
    t: Seq<char>,
    r: ReplyView,
    links: Seq<Seq<char>>,
    e: EdgeView,
    i: int,
)
    ensures
        ({
            let a = response(g, AnswerView::Refused(t));
            !a.ok && a.error == Some(t) && a.data is Nothing
        }),
        ({
            let a = response(g, AnswerView::Ready(r));
            a.ok && a.error is None && a.data == r
        }),
        ({
            let a = response(g, AnswerView::Recorded { what: RecordedView::Edge(e), links });
            a.ok && a.error is None && a.data == (ReplyView::Recorded {
                entity: EntityView::Edge(e),
                hints: hints(g),
                links,
            })
        }),
        0 <= i < g.nodes.len() && (forall|k: int|
            0 <= k < i ==> (#[trigger] g.nodes[k]).id != g.nodes[i].id) ==> {
            let a = response(
                g,
                AnswerView::Recorded { what: RecordedView::Node(g.nodes[i].id), links },
            );
            let b = response(
                g,
                AnswerView::Recorded { what: RecordedView::Bare(g.nodes[i].id), links },
            );
            let n = g.nodes[i];
            &&& a.ok && a.error is None && a.data == (ReplyView::Recorded {
                entity: EntityView::Node(n),
                hints: hints(g),
                links,
            })
            &&& b.ok && b.error is None
            &&& b.data matches ReplyView::Recorded { entity: EntityView::Node(m), hints: h, links: l }
                && h == hints(g) && l == links && m.id == n.id && m.typ == n.typ && m.inhalt
                == n.inhalt && m.begruendung == n.begruendung && m.datum == n.datum && m.status
                == n.status && m.herkunft == n.herkunft && m.frage_id == n.frage_id && m.wert
                == n.wert && m.score == n.score && m.basis_score == n.basis_score && m.ueberholt
                == n.ueberholt && m.erledigt == n.erledigt && m.quelle_ids.len() == 0
                && m.tags.len() == 0 && m.session_id is None
        },
{
    if 0 <= i < g.nodes.len() && (forall|k: int|
        0 <= k < i ==> (#[trigger] g.nodes[k]).id != g.nodes[i].id) {
        crate::laws::values::the_first_node_is_found(g, g.nodes[i].id, i);
    }
}

// ---- how replies are spelled ----

/// The object has the field with the value.
pub open spec fn has(j: JsonView, key: Seq<char>, v: JsonView) -> bool {
    j matches JsonView::Obj(fields) && fields.contains((key, v))
}

proof fn lemma_has(fields: Seq<(Seq<char>, JsonView)>, i: int)
    requires
        0 <= i < fields.len(),
    ensures
        fields.contains(fields[i]),
        fields[i] == (fields[i].0, fields[i].1),
{
}

/// A score is spelled as its numeral; one without a numeral as null.
pub proof fn scores_are_spelled_by_numerals(
    m: Seq<(crate::score::Score, Seq<char>)>,
    s: crate::score::Score,
    i: int,
)
    ensures
        0 <= i < m.len() && m[i].0 == s && (forall|k: int|
            0 <= k < i ==> (#[trigger] m[k]).0 != s) ==> score_json(m, s) == JsonView::Number(
            m[i].1,
        ),
        (forall|k: int| 0 <= k < m.len() ==> (#[trigger] m[k]).0 != s) ==> score_json(m, s) is Null,
    decreases m.len(),
{
    if m.len() > 0 && m[0].0 != s {
        let rest = m.skip(1);
        scores_are_spelled_by_numerals(rest, s, i - 1);
        if 0 <= i < m.len() && m[i].0 == s && (forall|k: int|
            0 <= k < i ==> (#[trigger] m[k]).0 != s) {
            assert(i > 0);
            assert(rest[i - 1] == m[i]);
            assert forall|k: int| 0 <= k < i - 1 implies (#[trigger] rest[k]).0 != s by {
                assert(rest[k] == m[k + 1]);
            }
        }
        if forall|k: int| 0 <= k < m.len() ==> (#[trigger] m[k]).0 != s {
            assert forall|k: int| 0 <= k < rest.len() implies (#[trigger] rest[k]).0 != s by {
                assert(rest[k] == m[k + 1]);
            }
        }
    }
}

/// A list of texts is spelled text by text.
pub proof fn lists_are_spelled_text_by_text(v: Seq<Seq<char>>)
    ensures
        texts_json(v) matches JsonView::Arr(items) && items.len() == v.len() && forall|i: int|
            0 <= i < v.len() ==> #[trigger] items[i] == JsonView::Str(v[i]),
{
}

/// An edge, a question and a document are spelled with each of their parts under its name.
pub proof fn parts_are_spelled_by_name(
    m: Seq<(crate::score::Score, Seq<char>)>,
    e: EdgeView,
    f: FrageView,
    q: QuelleView,
)
    ensures
        ({
            let j = edge_json(m, e);
            has(j, "id"@, JsonView::Str(e.id)) && has(j, "von"@, JsonView::Str(e.von)) && has(
                j,
                "zu"@,
                JsonView::Str(e.zu),
            ) && has(j, "polaritaet"@, JsonView::Str(e.polaritaet)) && has(
                j,
                "gewicht"@,
                score_json(m, e.gewicht),
            ) && j->Obj_0.len() == 5
        }),
        ({
            let j = frage_json(f);
            has(j, "id"@, JsonView::Str(f.id)) && has(j, "inhalt"@, JsonView::Str(f.inhalt)) && has(
                j,
                "werte"@,
                texts_json(f.werte),
            ) && j->Obj_0.len() == 3
        }),
        ({
            let j = quelle_json(q);
            has(j, "id"@, JsonView::Str(q.id)) && has(j, "pfad"@, JsonView::Str(q.pfad)) && has(
                j,
                "titel"@,
                JsonView::Str(q.titel),
            ) && has(j, "art"@, JsonView::Str(q.art)) && j->Obj_0.len() == 4
        }),
{
    let a = edge_json(m, e)->Obj_0;
    lemma_has(a, 0);
    lemma_has(a, 1);
    lemma_has(a, 2);
    lemma_has(a, 3);
    lemma_has(a, 4);
    let b = frage_json(f)->Obj_0;
    lemma_has(b, 0);
    lemma_has(b, 1);
    lemma_has(b, 2);
    let c = quelle_json(q)->Obj_0;
    lemma_has(c, 0);
    lemma_has(c, 1);
    lemma_has(c, 2);
    lemma_has(c, 3);
}

/// What an overview and the current state list is spelled with each of its parts under its
/// name.
pub proof fn short_forms_are_spelled_by_name(
    m: Seq<(crate::score::Score, Seq<char>)>,
    n: CompactNodeView,
    e: CompactEdgeView,
    d: DecisionView,
    q: QuestionView,
)
    ensures
        ({
            let j = compact_node_json(m, n);
            &&& has(j, "id"@, JsonView::Str(n.id))
            &&& has(j, "score"@, score_json(m, n.score))
            &&& has(j, "status"@, JsonView::Str(n.status))
            &&& has(j, "titel"@, JsonView::Str(n.titel))
            &&& has(j, "typ"@, JsonView::Str(n.typ.code()))
            &&& n.tags.len() > 0 ==> has(j, "tags"@, texts_json(n.tags))
            &&& n.wert matches Some(w) ==> has(j, "wert"@, JsonView::Str(w))
            &&& j->Obj_0.len() == 5 + (if n.tags.len() > 0 {
                1int
            } else {
                0
            }) + (if n.wert is Some {
                1int
            } else {
                0
            })
        }),
        ({
            let j = compact_edge_json(e);
            has(j, "von"@, JsonView::Str(e.von)) && has(j, "zu"@, JsonView::Str(e.zu)) && has(
                j,
                "polaritaet"@,
                JsonView::Str(e.polaritaet),
            ) && j->Obj_0.len() == 3
        }),
        ({
            let j = decision_json(d);
            has(j, "id"@, JsonView::Str(d.id)) && has(j, "inhalt"@, JsonView::Str(d.inhalt)) && has(
                j,
                "tags"@,
                texts_json(d.tags),
            ) && j->Obj_0.len() == 3
        }),
        ({
            let j = question_json(q);
            &&& has(j, "id"@, JsonView::Str(q.id))
            &&& has(j, "frage"@, JsonView::Str(q.frage))
            &&& has(j, "werte"@, texts_json(q.werte))
            &&& q.fuehrend matches Some(w) ==> has(j, "fuehrend"@, JsonView::Str(w))
            &&& q.fuehrend is None ==> has(j, "fuehrend"@, JsonView::Null)
            &&& j->Obj_0.len() == 4
        }),
{
    let a = compact_node_json(m, n)->Obj_0;
    let t: int = if n.tags.len() > 0 {
        4
    } else {
        3
    };
    lemma_has(a, 0);
    lemma_has(a, 1);
    lemma_has(a, 2);
    lemma_has(a, t);
    lemma_has(a, t + 1);
    if n.tags.len() > 0 {
        lemma_has(a, 3);
    }
    if n.wert is Some {
        lemma_has(a, t + 2);
    }
    let b = compact_edge_json(e)->Obj_0;
    lemma_has(b, 0);
    lemma_has(b, 1);
    lemma_has(b, 2);
    let c = decision_json(d)->Obj_0;
    lemma_has(c, 0);
    lemma_has(c, 1);
    lemma_has(c, 2);
    let f = question_json(q)->Obj_0;
    lemma_has(f, 0);
    lemma_has(f, 1);
    lemma_has(f, 2);
    lemma_has(f, 3);
}

/// A node is spelled with each thing that is known of it under its name; flags only where
/// they are set, lists only where they hold anything, and what is open not at all.
pub proof fn nodes_are_spelled_by_name(m: Seq<(crate::score::Score, Seq<char>)>, n: NodeView)
    ensures
        ({
            let j = node_json(m, n);
            &&& has(j, "id"@, JsonView::Str(n.id))
            &&& has(j, "typ"@, JsonView::Str(n.typ.code()))
            &&& has(j, "inhalt"@, JsonView::Str(n.inhalt))
            &&& has(j, "begruendung"@, JsonView::Str(n.begruendung))
            &&& has(j, "datum"@, JsonView::Str(n.datum))
            &&& has(j, "basis_score"@, score_json(m, n.basis_score))
            &&& has(j, "score"@, score_json(m, n.score))
            &&& has(j, "status"@, JsonView::Str(n.status))
            &&& has(j, "herkunft"@, JsonView::Str(n.herkunft))
            &&& n.frage_id matches Some(t) ==> has(j, "frage_id"@, JsonView::Str(t))
            &&& n.wert matches Some(t) ==> has(j, "wert"@, JsonView::Str(t))
            &&& n.session_id matches Some(t) ==> has(j, "session_id"@, JsonView::Str(t))
            &&& n.quelle_ids.len() > 0 ==> has(j, "quelle_ids"@, texts_json(n.quelle_ids))
            &&& n.tags.len() > 0 ==> has(j, "tags"@, texts_json(n.tags))
            &&& n.ueberholt ==> has(j, "ueberholt"@, JsonView::Bool(true))
            &&& n.erledigt ==> has(j, "erledigt"@, JsonView::Bool(true))
            &&& j->Obj_0.len() == 9 + count(n.frage_id is Some) + count(n.wert is Some) + count(
                n.session_id is Some,
            ) + count(n.quelle_ids.len() > 0) + count(n.tags.len() > 0) + count(n.ueberholt)
                + count(n.erledigt)
        }),
{
    lemma_node_head(m, n);
    lemma_node_tail(m, n);
    let h = node_head(m, n);
    let t = node_tail(m, n);
    assert(node_json(m, n) == JsonView::Obj(h + t));
    assert forall|x: (Seq<char>, JsonView)| h.contains(x) || t.contains(x) implies
        #[trigger] (h + t).contains(x) by {
        if h.contains(x) {
            let i = choose|i: int| 0 <= i < h.len() && h[i] == x;
            assert((h + t)[i] == x);
        } else {
            let i = choose|i: int| 0 <= i < t.len() && t[i] == x;
            assert((h + t)[h.len() + i] == x);
        }
    }
}

proof fn lemma_node_head(m: Seq<(crate::score::Score, Seq<char>)>, n: NodeView)
    ensures
        ({
            let h = node_head(m, n);
            &&& h.len() == 6 + count(n.erledigt) + count(n.frage_id is Some)
            &&& h.contains(("basis_score"@, score_json(m, n.basis_score)))
            &&& h.contains(("begruendung"@, JsonView::Str(n.begruendung)))
            &&& h.contains(("datum"@, JsonView::Str(n.datum)))
            &&& n.erledigt ==> h.contains(("erledigt"@, JsonView::Bool(true)))
            &&& n.frage_id matches Some(t) ==> h.contains(("frage_id"@, JsonView::Str(t)))
            &&& h.contains(("herkunft"@, JsonView::Str(n.herkunft)))
            &&& h.contains(("id"@, JsonView::Str(n.id)))
            &&& h.contains(("inhalt"@, JsonView::Str(n.inhalt)))
        }),
{
    let h = node_head(m, n);
    lemma_has(h, 0);
    lemma_has(h, 1);
    lemma_has(h, 2);
    let i = 3 + count(n.erledigt);
    if n.erledigt {
        lemma_has(h, 3);
    }
    if n.frage_id is Some {
        lemma_has(h, i);
    }
    let k = i + count(n.frage_id is Some);
    assert(h.len() == k + 3);
    lemma_has(h, k);
    lemma_has(h, k + 1);
    lemma_has(h, k + 2);
}

proof fn lemma_node_tail(m: Seq<(crate::score::Score, Seq<char>)>, n: NodeView)
    ensures
        ({
            let t = node_tail(m, n);
            &&& t.len() == 3 + count(n.quelle_ids.len() > 0) + count(n.session_id is Some) + count(
                n.tags.len() > 0,
            ) + count(n.ueberholt) + count(n.wert is Some)
            &&& n.quelle_ids.len() > 0 ==> t.contains(("quelle_ids"@, texts_json(n.quelle_ids)))
            &&& t.contains(("score"@, score_json(m, n.score)))
            &&& n.session_id matches Some(s) ==> t.contains(("session_id"@, JsonView::Str(s)))
            &&& t.contains(("status"@, JsonView::Str(n.status)))
            &&& n.tags.len() > 0 ==> t.contains(("tags"@, texts_json(n.tags)))
            &&& t.contains(("typ"@, JsonView::Str(n.typ.code())))
            &&& n.ueberholt ==> t.contains(("ueberholt"@, JsonView::Bool(true)))
            &&& n.wert matches Some(s) ==> t.contains(("wert"@, JsonView::Str(s)))
        }),
{
    let t = node_tail(m, n);
    let a = count(n.quelle_ids.len() > 0);
    if n.quelle_ids.len() > 0 {
        lemma_has(t, 0);
    }
    lemma_has(t, a);
    if n.session_id is Some {
        lemma_has(t, a + 1);
    }
    let b = a + 1 + count(n.session_id is Some);
    lemma_has(t, b);
    if n.tags.len() > 0 {
        lemma_has(t, b + 1);
    }
    let c = b + 1 + count(n.tags.len() > 0);
    lemma_has(t, c);
    if n.ueberholt {
        lemma_has(t, c + 1);
    }
    let d = c + 1 + count(n.ueberholt);
    if n.wert is Some {
        lemma_has(t, d);
    }
}

/// One for what holds.
pub open spec fn count(b: bool) -> int {
    if b {
        1
    } else {
        0
    }
}

/// A graph is spelled with its nodes, edges, questions and documents, each in its order.
pub proof fn graphs_are_spelled_part_by_part(
    m: Seq<(crate::score::Score, Seq<char>)>,
    g: GraphView,
)
    ensures
        ({
            let j = graph_json(m, g);
            &&& has(
                j,
                "nodes"@,
                JsonView::Arr(Seq::new(g.nodes.len(), |i: int| node_json(m, g.nodes[i]))),
            )
            &&& has(
                j,
                "edges"@,
                JsonView::Arr(Seq::new(g.edges.len(), |i: int| edge_json(m, g.edges[i]))),
            )
            &&& has(
                j,
                "fragen"@,
                JsonView::Arr(Seq::new(g.fragen.len(), |i: int| frage_json(g.fragen[i]))),
            )
            &&& has(
                j,
                "quellen"@,
                JsonView::Arr(Seq::new(g.quellen.len(), |i: int| quelle_json(g.quellen[i]))),
            )
            &&& j->Obj_0.len() == 4
        }),
{
    let a = graph_json(m, g)->Obj_0;
    lemma_has(a, 0);
    lemma_has(a, 1);
    lemma_has(a, 2);
    lemma_has(a, 3);
    assert(g.nodes.map_values(|n: NodeView| node_json(m, n)) =~= Seq::new(
        g.nodes.len(),
        |i: int| node_json(m, g.nodes[i]),
    ));
    assert(g.edges.map_values(|e: EdgeView| edge_json(m, e)) =~= Seq::new(
        g.edges.len(),
        |i: int| edge_json(m, g.edges[i]),
    ));
    assert(g.fragen.map_values(|f: FrageView| frage_json(f)) =~= Seq::new(
        g.fragen.len(),
        |i: int| frage_json(g.fragen[i]),
    ));
    assert(g.quellen.map_values(|q: QuelleView| quelle_json(q)) =~= Seq::new(
        g.quellen.len(),
        |i: int| quelle_json(g.quellen[i]),
    ));
}

/// The reply to a ping, to a question for health, for a hint or for a subscription, and to
/// a trigger.
pub proof fn short_replies_are_spelled(
    m: Seq<(crate::score::Score, Seq<char>)>,
    project: Seq<char>,
    since: u64,
    hint: Seq<char>,
)
    ensures
        reply_view(m, ReplyView::Nothing) is Null,
        ({
            let j = reply_view(m, ReplyView::Pong { project });
            has(j, "pong"@, JsonView::Bool(true)) && has(j, "project"@, JsonView::Str(project))
                && has(j, "via"@, JsonView::Str("knowledge-observer"@)) && j->Obj_0.len() == 3
        }),
        ({
            let j = reply_view(m, ReplyView::Health { since });
            has(j, "ok"@, JsonView::Bool(true)) && has(
                j,
                "since"@,
                JsonView::Number(decimal(since as nat)),
            ) && has(j, "sessions"@, JsonView::Arr(Seq::empty())) && j->Obj_0.len() == 3
        }),
        ({
            let j = reply_view(m, ReplyView::Hint { hint });
            has(j, "hint"@, JsonView::Str(hint)) && j->Obj_0.len() == 1
        }),
        ({
            let j = reply_view(m, ReplyView::Accepted { skipped: true });
            has(j, "ok"@, JsonView::Bool(true)) && has(j, "skipped"@, JsonView::Bool(true))
                && j->Obj_0.len() == 2
        }),
        ({
            let j = reply_view(m, ReplyView::Accepted { skipped: false });
            has(j, "ok"@, JsonView::Bool(true)) && j->Obj_0.len() == 1
        }),
        ({
            let j = reply_view(m, ReplyView::NotSubscribed);
            has(j, "ok"@, JsonView::Bool(true)) && has(j, "subscribed"@, JsonView::Bool(false))
                && j->Obj_0.len() == 3
        }),
{
    let a = reply_view(m, ReplyView::Pong { project })->Obj_0;
    lemma_has(a, 0);
    lemma_has(a, 1);
    lemma_has(a, 2);
    let b = reply_view(m, ReplyView::Health { since })->Obj_0;
    lemma_has(b, 0);
    lemma_has(b, 1);
    lemma_has(b, 2);
    lemma_has(reply_view(m, ReplyView::Hint { hint })->Obj_0, 0);
    let c = reply_view(m, ReplyView::Accepted { skipped: true })->Obj_0;
    lemma_has(c, 0);
    lemma_has(c, 1);
    lemma_has(reply_view(m, ReplyView::Accepted { skipped: false })->Obj_0, 0);
    let d = reply_view(m, ReplyView::NotSubscribed)->Obj_0;
    lemma_has(d, 1);
    lemma_has(d, 2);
}

/// What was recorded is spelled with the hints, and with the links that were made, where
/// any were; a statement that is known already, with the id of the node that says it.
pub proof fn recordings_are_spelled(
    m: Seq<(crate::score::Score, Seq<char>)>,
    n: NodeView,
    e: EdgeView,
    of: Seq<char>,
    hints: Seq<Seq<char>>,
    links: Seq<Seq<char>>,
)
    ensures
        ({
            let j = reply_view(
                m,
                ReplyView::Recorded { entity: EntityView::Node(n), hints, links },
            );
            has(j, "hints"@, texts_json(hints)) && has(j, "recorded"@, node_json(m, n)) && (
            links.len() > 0 ==> has(j, "links"@, texts_json(links))) && j->Obj_0.len() == 2 + count(
                links.len() > 0,
            )
        }),
        ({
            let j = reply_view(
                m,
                ReplyView::Recorded { entity: EntityView::Edge(e), hints, links },
            );
            has(j, "hints"@, texts_json(hints)) && has(j, "recorded"@, edge_json(m, e)) && (
            links.len() > 0 ==> has(j, "links"@, texts_json(links))) && j->Obj_0.len() == 2 + count(
                links.len() > 0,
            )
        }),
        ({
            let j = reply_view(m, ReplyView::Duplicate { node: n, duplicate_of: of, hints });
            has(j, "hints"@, texts_json(hints)) && has(j, "recorded"@, node_json(m, n)) && has(
                j,
                "duplicate_of"@,
                JsonView::Str(of),
            ) && j->Obj_0.len() == 4
        }),
{
    let a = reply_view(m, ReplyView::Recorded { entity: EntityView::Node(n), hints, links })->Obj_0;
    let b = reply_view(m, ReplyView::Recorded { entity: EntityView::Edge(e), hints, links })->Obj_0;
    let k = 1 + count(links.len() > 0);
    lemma_has(a, 0);
    lemma_has(a, k);
    lemma_has(b, 0);
    lemma_has(b, k);
    if links.len() > 0 {
        lemma_has(a, 1);
        lemma_has(b, 1);
    }
    let c = reply_view(m, ReplyView::Duplicate { node: n, duplicate_of: of, hints })->Obj_0;
    lemma_has(c, 0);
    lemma_has(c, 1);
    lemma_has(c, 3);
}

/// An overview, a part of the graph, the documents and the current state are spelled with
/// each of their lists under its name, in its order.
pub proof fn readings_are_spelled(
    m: Seq<(crate::score::Score, Seq<char>)>,
    g: GraphView,
    nodes: Seq<CompactNodeView>,
    edges: Seq<CompactEdgeView>,
    fragen: Seq<FrageView>,
    hints: Seq<Seq<char>>,
    decisions: Seq<DecisionView>,
    open: Seq<QuestionView>,
    answered: Seq<QuestionView>,
)
    ensures
        reply_view(m, ReplyView::Subgraph { graph: g }) == graph_json(m, g),
        has(
            reply_view(m, ReplyView::Documents { documents: g.quellen }),
            "documents"@,
            JsonView::Arr(Seq::new(g.quellen.len(), |i: int| quelle_json(g.quellen[i]))),
        ),
        ({
            let j = reply_view(m, ReplyView::Overview { nodes, edges, fragen, hints });
            &&& has(
                j,
                "nodes"@,
                JsonView::Arr(Seq::new(nodes.len(), |i: int| compact_node_json(m, nodes[i]))),
            )
            &&& has(
                j,
                "edges"@,
                JsonView::Arr(Seq::new(edges.len(), |i: int| compact_edge_json(edges[i]))),
            )
            &&& has(
                j,
                "fragen"@,
                JsonView::Arr(Seq::new(fragen.len(), |i: int| frage_json(fragen[i]))),
            )
            &&& has(j, "hints"@, texts_json(hints))
            &&& j->Obj_0.len() == 4
        }),
        ({
            let j = reply_view(m, ReplyView::State { decisions, open, answered });
            let d = JsonView::Arr(Seq::new(decisions.len(), |i: int| decision_json(decisions[i])));
            &&& has(j, "active_decisions"@, d)
            &&& has(j, "aktive_entscheidungen"@, d)
            &&& has(
                j,
                "offene_fragen"@,
                JsonView::Arr(Seq::new(open.len(), |i: int| question_json(open[i]))),
            )
            &&& has(
                j,
                "beantwortete_fragen"@,
                JsonView::Arr(Seq::new(answered.len(), |i: int| question_json(answered[i]))),
            )
            &&& j->Obj_0.len() == 4
        }),
{
    assert(g.quellen.map_values(|q: QuelleView| quelle_json(q)) =~= Seq::new(
        g.quellen.len(),
        |i: int| quelle_json(g.quellen[i]),
    ));
    assert(nodes.map_values(|n: CompactNodeView| compact_node_json(m, n)) =~= Seq::new(
        nodes.len(),
        |i: int| compact_node_json(m, nodes[i]),
    ));
    assert(edges.map_values(|e: CompactEdgeView| compact_edge_json(e)) =~= Seq::new(
        edges.len(),
        |i: int| compact_edge_json(edges[i]),
    ));
    assert(fragen.map_values(|f: FrageView| frage_json(f)) =~= Seq::new(
        fragen.len(),
        |i: int| frage_json(fragen[i]),
    ));
    assert(decisions.map_values(|d: DecisionView| decision_json(d)) =~= Seq::new(
        decisions.len(),
        |i: int| decision_json(decisions[i]),
    ));
    assert(open.map_values(|q: QuestionView| question_json(q)) =~= Seq::new(
        open.len(),
        |i: int| question_json(open[i]),
    ));
    assert(answered.map_values(|q: QuestionView| question_json(q)) =~= Seq::new(
        answered.len(),
        |i: int| question_json(answered[i]),
    ));
    lemma_has(reply_view(m, ReplyView::Documents { documents: g.quellen })->Obj_0, 0);
    let a = reply_view(m, ReplyView::Overview { nodes, edges, fragen, hints })->Obj_0;
    lemma_has(a, 0);
    lemma_has(a, 1);
    lemma_has(a, 2);
    lemma_has(a, 3);
    let b = reply_view(m, ReplyView::State { decisions, open, answered })->Obj_0;
    lemma_has(b, 0);
    lemma_has(b, 1);
    lemma_has(b, 2);
    lemma_has(b, 3);
}

// ---- the command line ----

/// What is handed to the host names the event and the text.
pub proof fn envelopes_name_event_and_text(event: Seq<char>, t: Seq<char>)
    ensures
        envelope_json(event, t) matches JsonView::Obj(fields) && fields.len() == 1 && fields[0].0
            == "hookSpecificOutput"@ && has(fields[0].1, "hookEventName"@, JsonView::Str(event))
            && has(fields[0].1, "additionalContext"@, JsonView::Str(t)),
{
    let inner = envelope_json(event, t)->Obj_0[0].1->Obj_0;
    lemma_has(inner, 0);
    lemma_has(inner, 1);
}

/// The index of a session tells the first active decisions and the first open questions,
/// as many as are wanted; where there are neither, there is none.
pub proof fn the_index_tells_what_holds(g: GraphView, most: int, most_open: int)
    requires
        0 <= most,
        0 <= most_open,
    ensures
        ({
            let all = active_decisions(g);
            let open = questions(g, false, g.fragen.len() as int);
            let d = if all.len() <= most {
                all.len() as int
            } else {
                most
            };
            let q = if open.len() <= most_open {
                open.len() as int
            } else {
                most_open
            };
            let top = "Project knowledge (current state):\n"@;
            let decided = "Active decisions:\n"@ + decision_lines(all, d);
            let asked = "Open questions:\n"@ + question_lines(open, q);
            &&& d == 0 && q == 0 ==> index_text(g, most, most_open) is None
            &&& d > 0 && q == 0 ==> index_text(g, most, most_open) == Some(top + decided)
            &&& d == 0 && q > 0 ==> index_text(g, most, most_open) == Some(top + asked)
            &&& d > 0 && q > 0 ==> index_text(g, most, most_open) == Some(top + decided + asked)
        }),
{
    let all = active_decisions(g);
    let open = questions(g, false, g.fragen.len() as int);
    let d = capped(all, most);
    let q = capped(open, most_open);
    lemma_decision_lines(all, d, d.len() as int);
    lemma_question_lines(open, q, q.len() as int);
    let top = "Project knowledge (current state):\n"@;
    let decided = "Active decisions:\n"@ + decision_lines(all, d.len() as int);
    let asked = "Open questions:\n"@ + question_lines(open, q.len() as int);
    assert(top + decided + Seq::<char>::empty() =~= top + decided);
    assert(top + Seq::<char>::empty() + asked =~= top + asked);
}

proof fn lemma_decision_lines(a: Seq<NodeView>, b: Seq<NodeView>, n: int)
    requires
        0 <= n <= a.len(),
        n <= b.len(),
        forall|i: int| 0 <= i < n ==> #[trigger] a[i] == b[i],
    ensures
        decision_lines(a, n) == decision_lines(b, n),
    decreases n,
{
    if n > 0 {
        lemma_decision_lines(a, b, n - 1);
        assert(a[n - 1] == b[n - 1]);
    }
}

proof fn lemma_question_lines(a: Seq<QuestionView>, b: Seq<QuestionView>, n: int)
    requires
        0 <= n <= a.len(),
        n <= b.len(),
        forall|i: int| 0 <= i < n ==> #[trigger] a[i] == b[i],
    ensures
        question_lines(a, n) == question_lines(b, n),
    decreases n,
{
    if n > 0 {
        lemma_question_lines(a, b, n - 1);
        assert(a[n - 1] == b[n - 1]);
    }
}

/// A decision is told in a line with its statement, a question in a line with its leading
/// value, or a dash where none leads.
pub proof fn decisions_and_questions_are_lines(
    d: Seq<NodeView>,
    q: Seq<QuestionView>,
    n: int,
    k: int,
)
    requires
        0 < n <= d.len(),
        0 < k <= q.len(),
    ensures
        decision_lines(d, 0).len() == 0,
        decision_lines(d, n) == decision_lines(d, n - 1) + "- "@ + d[n - 1].inhalt + "\n"@,
        question_lines(q, 0).len() == 0,
        q[k - 1].fuehrend matches Some(w) ==> question_lines(q, k) == question_lines(q, k - 1)
            + "- "@ + q[k - 1].frage + " (leading: "@ + w + ")\n"@,
        q[k - 1].fuehrend is None ==> question_lines(q, k) == question_lines(q, k - 1) + "- "@
            + q[k - 1].frage + " (leading: "@ + "–"@ + ")\n"@,
{
}

// ---- the tools ----

/// Each tool asks for one operation, and no other name is a tool.
pub proof fn tools_ask_for_their_operation(name: Seq<char>)
    ensures
        op_of_tool("query_knowledge"@) == Some("query"@),
        op_of_tool("get_knowledge"@) == Some("get"@),
        op_of_tool("current_knowledge"@) == Some("current_state"@),
        op_of_tool("list_documents"@) == Some("list_documents"@),
        op_of_tool("knowledge_ping"@) == Some("ping"@),
        op_of_tool(name) is Some ==> name == "query_knowledge"@ || name == "get_knowledge"@ || name
            == "current_knowledge"@ || name == "list_documents"@ || name == "knowledge_ping"@,
{
    reveal_strlit("query_knowledge");
    reveal_strlit("get_knowledge");
    reveal_strlit("current_knowledge");
    reveal_strlit("list_documents");
    reveal_strlit("knowledge_ping");
    assert("query_knowledge"@[0] == 'q' && "get_knowledge"@[0] == 'g' && "current_knowledge"@[0]
        == 'c' && "list_documents"@[0] == 'l' && "knowledge_ping"@[0] == 'k');
}

/// A result is replied under the id of the message, and so is an error, with its code.
pub proof fn replies_carry_the_id(
    id: JsonView,
    result: JsonView,
    code: Seq<char>,
    message: Seq<char>,
    t: Seq<char>,
    failed: bool,
)
    ensures
        ({
            let j = result_json(id, result);
            has(j, "id"@, id) && has(j, "jsonrpc"@, JsonView::Str("2.0"@)) && has(
                j,
                "result"@,
                result,
            ) && j->Obj_0.len() == 3
        }),
        ({
            let j = error_json(id, code, message);
            has(j, "id"@, id) && has(j, "jsonrpc"@, JsonView::Str("2.0"@)) && j->Obj_0.len() == 3
                && j->Obj_0[0].0 == "error"@ && has(
                j->Obj_0[0].1,
                "code"@,
                JsonView::Number(code),
            ) && has(j->Obj_0[0].1, "message"@, JsonView::Str(message))
        }),
        ({
            let j = content_json(t, failed);
            has(j, "isError"@, JsonView::Bool(failed)) && j->Obj_0.len() == 2 && j->Obj_0[0].0
                == "content"@ && (j->Obj_0[0].1 matches JsonView::Arr(items) && items.len() == 1
                && has(items[0], "text"@, JsonView::Str(t)) && has(
                items[0],
                "type"@,
                JsonView::Str("text"@),
            ))
        }),
{
    let a = result_json(id, result)->Obj_0;
    lemma_has(a, 0);
    lemma_has(a, 1);
    lemma_has(a, 2);
    let b = error_json(id, code, message)->Obj_0;
    lemma_has(b, 0);
    lemma_has(b, 1);
    lemma_has(b, 2);
    lemma_has(b[0].1->Obj_0, 0);
    lemma_has(b[0].1->Obj_0, 1);
    let c = content_json(t, failed)->Obj_0;
    lemma_has(c, 0);
    lemma_has(c, 1);
    lemma_has(c[0].1->Arr_0[0]->Obj_0, 0);
    lemma_has(c[0].1->Arr_0[0]->Obj_0, 1);
}

/// A message is replied by its method: what is no JSON with an error, and a message
/// without an id not at all; a call asks the store for the tool's operation, with the
/// arguments of the call.
pub proof fn messages_are_answered_by_method(
    line: Seq<char>,
    msg: JsonView,
    id: JsonView,
    method: Seq<char>,
    params: JsonView,
    name: Seq<char>,
)
    ensures
        json_of_text(line) is None ==> message_step(line) == StepView::Reply(
            error_json(JsonView::Null, "-32700"@, "parse error: "@ + json_error(line)),
        ),
        json_of_text(line) == Some(msg) && field(msg, "id"@) is None ==> message_step(line)
            is Silent,
        json_of_text(line) == Some(msg) && field(msg, "id"@) == Some(id) && field(msg, "method"@)
            == Some(JsonView::Str(method)) ==> {
            &&& method == "ping"@ ==> message_step(line) == StepView::Reply(
                result_json(id, JsonView::Obj(Seq::empty())),
            )
            &&& method == "tools/list"@ ==> (message_step(line) matches StepView::Reply(j) && j
                == result_json(
                id,
                JsonView::Obj(seq![("tools"@, JsonView::Arr(tool_list()))]),
            ))
            &&& method == "tools/call"@ && field(msg, "params"@) == Some(params) && field(
                params,
                "name"@,
            ) == Some(JsonView::Str(name)) ==> {
                &&& op_of_tool(name) is None ==> message_step(line) == StepView::Reply(
                    result_json(id, content_json("unknown tool: "@ + name, true)),
                )
                &&& op_of_tool(name) matches Some(op) ==> (message_step(line)
                    matches StepView::Call { id: i, op: o, args } && i == id && o == op && (field(
                    params,
                    "arguments"@,
                ) matches Some(a) ==> args == a) && (field(params, "arguments"@) is None ==> args
                    == JsonView::Obj(Seq::empty())))
            }
            &&& method != "initialize"@ && method != "ping"@ && method != "tools/list"@ && method
                != "tools/call"@ ==> message_step(line) == StepView::Reply(
                error_json(id, "-32601"@, "method not found: "@ + method),
            )
        },
{
    lemma_methods();
}

/// A greeting is replied with the version of the protocol that was asked for, else with
/// the one that is spoken.
pub proof fn greetings_keep_the_version(
    line: Seq<char>,
    msg: JsonView,
    id: JsonView,
    params: JsonView,
    version: Seq<char>,
)
    requires
        json_of_text(line) == Some(msg),
        field(msg, "id"@) == Some(id),
        field(msg, "method"@) == Some(JsonView::Str("initialize"@)),
    ensures
        field(msg, "params"@) == Some(params) && field(params, "protocolVersion"@) == Some(
            JsonView::Str(version),
        ) ==> exists|r: JsonView|
            message_step(line) == StepView::Reply(#[trigger] result_json(id, r)) && has(
                r,
                "protocolVersion"@,
                JsonView::Str(version),
            ),
        field(msg, "params"@) is None || (field(msg, "params"@) == Some(params) && field(
            params,
            "protocolVersion"@,
        ) is None) ==> exists|r: JsonView|
            message_step(line) == StepView::Reply(#[trigger] result_json(id, r)) && has(
                r,
                "protocolVersion"@,
                JsonView::Str("2025-06-18"@),
            ),
{
    lemma_methods();
    let r = crate::mcp::initialize_json(field(msg, "params"@));
    lemma_has(r->Obj_0, 1);
    assert(message_step(line) == StepView::Reply(result_json(id, r)));
}

proof fn lemma_methods()
    ensures
        "initialize"@ != "ping"@,
        "initialize"@ != "tools/list"@,
        "initialize"@ != "tools/call"@,
        "ping"@ != "tools/list"@,
        "ping"@ != "tools/call"@,
        "tools/list"@ != "tools/call"@,
{
    reveal_strlit("initialize");
    reveal_strlit("ping");
    reveal_strlit("tools/list");
    reveal_strlit("tools/call");
    assert("initialize"@[0] == 'i' && "ping"@[0] == 'p' && "tools/list"@[0] == 't'
        && "tools/call"@[0] == 't' && "tools/list"@[6] == 'l' && "tools/call"@[6] == 'c');
}

// ---- the page ----

/// The project that is shown is the first that is named, by the argument or by a variable,
/// white space aside; else the current directory.
pub proof fn the_first_named_project_is_shown(
    arg: Option<&str>,
    a: Option<&str>,
    b: Option<&str>,
    cwd: Option<String>,
)
    ensures
        arg matches Some(d) ==> trimmed(d@).len() > 0 ==> shown_project(arg, a, b, cwd) == trimmed(
            d@,
        ),
        !(arg matches Some(d) && trimmed(d@).len() > 0) ==> {
            &&& a matches Some(d) ==> trimmed(d@).len() > 0 ==> shown_project(arg, a, b, cwd)
                == trimmed(d@)
            &&& !(a matches Some(d) && trimmed(d@).len() > 0) ==> {
                &&& b matches Some(d) ==> trimmed(d@).len() > 0 ==> shown_project(arg, a, b, cwd)
                    == trimmed(d@)
                &&& !(b matches Some(d) && trimmed(d@).len() > 0) ==> {
                    &&& cwd matches Some(d) ==> shown_project(arg, a, b, cwd) == d@
                    &&& cwd is None ==> shown_project(arg, a, b, cwd) == "."@
                }
            }
        },
{
}

/// The path that is asked for is the second word of the first line, where the first is
/// `GET`, up to a question mark.
pub proof fn the_path_is_the_second_word(
    head: Seq<char>,
    first: Seq<char>,
    rest: Seq<char>,
    path: Seq<char>,
    query: Seq<char>,
)
    requires
        forall|i: int| 0 <= i < first.len() ==> #[trigger] first[i] != '\n',
        head == first || head == first + seq!['\n'] + rest,
        forall|i: int| 0 <= i < path.len() ==> #[trigger] path[i] != '?',
    ensures
        ({
            let w = crate::store::lookup::words(first);
            &&& w.len() < 2 ==> request_path(head) is None
            &&& w.len() >= 2 && w[0] != "GET"@ ==> request_path(head) is None
            &&& w.len() >= 2 && w[0] == "GET"@ && w[1] == path ==> request_path(head) == Some(path)
            &&& w.len() >= 2 && w[0] == "GET"@ && w[1] == path + seq!['?'] + query
                ==> request_path(head) == Some(path)
        }),
{
    let k = first.len() as int;
    if head == first {
        crate::text::lemma_first_break(head, 0);
    } else {
        assert(head[k] == '\n');
        crate::text::lemma_break_is_first(head, 0, k);
        assert(head.take(k) =~= first);
    }
    lemma_question_mark(path, 0, path.len() as int);
    let full = path + seq!['?'] + query;
    assert(full[path.len() as int] == '?');
    lemma_question_mark(full, 0, path.len() as int);
    assert(full.take(path.len() as int) =~= path);
}

proof fn lemma_question_mark(s: Seq<char>, from: int, i: int)
    requires
        0 <= from <= i <= s.len(),
        forall|k: int| from <= k < i ==> #[trigger] s[k] != '?',
        i < s.len() ==> s[i] == '?',
    ensures
        i < s.len() ==> crate::text::find_from(s, seq!['?'], from) == Some(i),
        i == s.len() ==> crate::text::find_from(s, seq!['?'], from) is None,
    decreases i - from,
{
    if from < i {
        assert(s[from] != '?');
        if crate::text::occurs_at(s, seq!['?'], from) {
            assert(s.subrange(from, from + 1)[0] == '?');
        }
        lemma_question_mark(s, from + 1, i);
    } else if i < s.len() {
        assert(s.subrange(i, i + 1) =~= seq!['?']);
    } else {
        reveal_with_fuel(crate::text::find_from, 2);
    }
}

/// Two paths show the page and one the graph; nothing else is found.
pub proof fn three_paths_are_found(path: Seq<char>)
    ensures
        route_of(Some(path)) is Page <==> path == "/"@ || path == "/index.html"@,
        route_of(Some(path)) is Graph <==> path == "/graph.json"@,
        route_of(None) is NotFound,
{
    reveal_strlit("/");
    reveal_strlit("/index.html");
    reveal_strlit("/graph.json");
    assert("/"@.len() == 1 && "/index.html"@[1] == 'i' && "/graph.json"@[1] == 'g'
        && "/graph.json"@.len() == 11);
}

/// What is found is answered as such, with its kind and its length, and is not kept.
pub proof fn answers_tell_kind_and_length(n: nat)
    ensures
        response_head(Route::Page, n) == "HTTP/1.1 "@ + "200 OK"@ + "\r\nContent-Type: "@
            + "text/html; charset=utf-8"@ + "\r\nContent-Length: "@ + decimal(n)
            + "\r\nConnection: close\r\nCache-Control: no-store\r\n\r\n"@,
        response_head(Route::Graph, n) == "HTTP/1.1 "@ + "200 OK"@ + "\r\nContent-Type: "@
            + "application/json"@ + "\r\nContent-Length: "@ + decimal(n)
            + "\r\nConnection: close\r\nCache-Control: no-store\r\n\r\n"@,
        response_head(Route::NotFound, n) == "HTTP/1.1 "@ + "404 Not Found"@
            + "\r\nContent-Type: "@ + "text/plain; charset=utf-8"@ + "\r\nContent-Length: "@
            + decimal(n) + "\r\nConnection: close\r\nCache-Control: no-store\r\n\r\n"@,
{
}

/// The tool for queries takes a keyword, a type, a status, tags and a limit; that for
/// nodes takes their ids, which it needs, and a depth; the others take nothing.
pub proof fn tools_take_their_arguments()
    ensures
        ({
            let p = field(query_schema(), "properties"@);
            &&& p matches Some(JsonView::Obj(f)) && f.len() == 5
            &&& has(p->0, "limit"@, argument("integer"@, "Keep only the top-N matches by score."@))
            &&& has(
                p->0,
                "q"@,
                argument("string"@, "Keyword matched in node content (case-insensitive)."@),
            )
            &&& has(
                p->0,
                "status"@,
                choice_argument(seq!["supported"@, "disputed"@, "refuted"@, "unsupported"@]),
            )
            &&& has(
                p->0,
                "tags"@,
                list_argument("Match nodes carrying ANY of these topic/area tags."@),
            )
            &&& has(
                p->0,
                "typ"@,
                choice_argument(
                    seq![
                        "entscheidung"@,
                        "erkenntnis"@,
                        "fakt"@,
                        "beobachtung"@,
                        "recherche"@,
                        "vermutung"@,
                    ],
                ),
            )
        }),
        ({
            let p = field(get_schema(), "properties"@);
            &&& p matches Some(JsonView::Obj(f)) && f.len() == 2
            &&& has(
                p->0,
                "ids"@,
                list_argument("Node ids (from query_knowledge) to fetch in full."@),
            )
            &&& has(
                p->0,
                "depth"@,
                argument("integer"@, "Neighbourhood hops to include (default 1)."@),
            )
            &&& has(
                get_schema(),
                "required"@,
                JsonView::Arr(seq![JsonView::Str("ids"@)]),
            )
        }),
        field(no_args_schema(), "properties"@) == Some(JsonView::Obj(Seq::empty())),
        has(query_schema(), "type"@, JsonView::Str("object"@)),
        has(get_schema(), "type"@, JsonView::Str("object"@)),
        has(no_args_schema(), "type"@, JsonView::Str("object"@)),
        has(query_schema(), "additionalProperties"@, JsonView::Bool(false)),
        has(get_schema(), "additionalProperties"@, JsonView::Bool(false)),
        has(no_args_schema(), "additionalProperties"@, JsonView::Bool(false)),
{
    reveal_strlit("properties");
    reveal_strlit("additionalProperties");
    assert("properties"@.len() == 10 && "additionalProperties"@.len() == 20);
    let q = query_schema()->Obj_0;
    let g = get_schema()->Obj_0;
    let n = no_args_schema()->Obj_0;
    crate::laws::values::the_first_field_counts(q, "properties"@, 1);
    crate::laws::values::the_first_field_counts(g, "properties"@, 1);
    crate::laws::values::the_first_field_counts(n, "properties"@, 1);
    lemma_has(q, 0);
    lemma_has(q, 2);
    lemma_has(g, 0);
    lemma_has(g, 2);
    lemma_has(g, 3);
    lemma_has(n, 0);
    lemma_has(n, 2);
    let a = q[1].1->Obj_0;
    lemma_has(a, 0);
    lemma_has(a, 1);
    lemma_has(a, 2);
    lemma_has(a, 3);
    lemma_has(a, 4);
    let b = g[1].1->Obj_0;
    lemma_has(b, 0);
    lemma_has(b, 1);
    assert(seq!["ids"@].map_values(|t: Seq<char>| JsonView::Str(t)) =~= seq![JsonView::Str("ids"@)]);
}

/// Each tool is offered with its name, its description and what it takes.
pub proof fn tools_are_offered_by_name(name: Seq<char>, description: Seq<char>, schema: JsonView)
    ensures
        has(tool_json(name, description, schema), "name"@, JsonView::Str(name)),
        has(tool_json(name, description, schema), "description"@, JsonView::Str(description)),
        has(tool_json(name, description, schema), "inputSchema"@, schema),
        tool_list().len() == 5,
        has(tool_list()[0], "name"@, JsonView::Str("knowledge_ping"@)),
        has(tool_list()[0], "inputSchema"@, no_args_schema()),
        has(tool_list()[1], "name"@, JsonView::Str("query_knowledge"@)),
        has(tool_list()[1], "inputSchema"@, query_schema()),
        has(tool_list()[2], "name"@, JsonView::Str("get_knowledge"@)),
        has(tool_list()[2], "inputSchema"@, get_schema()),
        has(tool_list()[3], "name"@, JsonView::Str("current_knowledge"@)),
        has(tool_list()[3], "inputSchema"@, no_args_schema()),
        has(tool_list()[4], "name"@, JsonView::Str("list_documents"@)),
        has(tool_list()[4], "inputSchema"@, no_args_schema()),
{
    lemma_tool(name, description, schema);
    lemma_tool("knowledge_ping"@, crate::mcp::PING_TEXT@, no_args_schema());
    lemma_tool("query_knowledge"@, crate::mcp::QUERY_TEXT@, query_schema());
    lemma_tool("get_knowledge"@, crate::mcp::GET_TEXT@, get_schema());
    lemma_tool("current_knowledge"@, crate::mcp::CURRENT_TEXT@, no_args_schema());
    lemma_tool("list_documents"@, crate::mcp::DOCUMENTS_TEXT@, no_args_schema());
}

proof fn lemma_tool(name: Seq<char>, description: Seq<char>, schema: JsonView)
    ensures
        has(tool_json(name, description, schema), "name"@, JsonView::Str(name)),
        has(tool_json(name, description, schema), "description"@, JsonView::Str(description)),
        has(tool_json(name, description, schema), "inputSchema"@, schema),
{
    let f = tool_json(name, description, schema)->Obj_0;
    lemma_has(f, 1);
    lemma_has(f, 2);
    lemma_has(f, 3);
}

/// An overview tells how many nodes it has left out, where a condition was set and left
/// any out; then the hints on the graph; and last how to learn more.
pub proof fn overviews_tell_what_was_left_out(g: GraphView, f: FilterView)
    ensures
        ({
            let shown = filtered(g, f).nodes.len();
            let notes = query_notes(g, f);
            let told = f != no_filter() && shown < g.nodes.len();
            &&& notes.len() == count(told) + hints(g).len() + 1
            &&& told ==> notes[0] == "Gefiltert: "@ + decimal(shown) + " von "@ + decimal(
                g.nodes.len(),
            ) + " Knoten. Filter: q/typ/status/tags/limit."@
            &&& forall|i: int|
                0 <= i < hints(g).len() ==> #[trigger] notes[i + count(told)] == hints(g)[i]
        }),
{
}

} // verus!

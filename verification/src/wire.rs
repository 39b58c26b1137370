//! Values as they go over the channel and into files: JSON. How a score is written as a
//! number is a matter of floating point, and is given.

use vstd::prelude::*;

use crate::ipc::{
    compact_edge_views, compact_views, decision_views, question_views, CompactEdge,
    CompactEdgeView, CompactNode, CompactNodeView, Decision, DecisionView, Entity, EntityView,
    Question, QuestionView, Reply, ReplyView,
};
use crate::json::{
    field_views, item_views, json_texts, opt_field, opt_str, opt_text_json, push_field, push_opt,
    texts_json, Json, JsonView,
};
use crate::score::Score;
use crate::store::model::{
    edge_views, frage_views, node_views, quelle_views, Edge, EdgeView, Frage, FrageView, GraphView,
    KnowledgeGraph, Node, NodeView, Quelle, QuelleView,
};
use crate::text;
use crate::text::{opt_text, texts};

verus! {

broadcast use {crate::json::lemma_array_view, crate::json::lemma_object_view};

/// How scores are written in JSON: each with the text of the number.
#[derive(Debug, Clone)]
pub struct Numerals {
    pub list: Vec<(Score, String)>,
}

impl View for Numerals {
    type V = Seq<(Score, Seq<char>)>;

    open spec fn view(&self) -> Seq<(Score, Seq<char>)> {
        self.list@.map_values(|p: (Score, String)| (p.0, p.1@))
    }
}

/// A score as JSON: the first text that is given for it, or null, which stands for what is
/// no number.
pub open spec fn score_json(m: Seq<(Score, Seq<char>)>, s: Score) -> JsonView
    decreases m.len(),
{
    if m.len() == 0 {
        JsonView::Null
    } else if m[0].0 == s {
        JsonView::Number(m[0].1)
    } else {
        score_json(m.skip(1), s)
    }
}

fn write_score(m: &Numerals, s: Score) -> (r: Json)
    ensures
        r@ == score_json(m@, s),
{
    let mut i: usize = 0;
    assert(m@.skip(0) =~= m@);
    while i < m.list.len()
        invariant
            i <= m.list.len(),
            score_json(m@, s) == score_json(m@.skip(i as int), s),
        decreases m.list.len() - i,
    {
        assert(m@.skip(i as int)[0] == m@[i as int]);
        assert(m@[i as int].1 == m.list@[i as int].1@);
        assert(m@.skip(i as int).skip(1) =~= m@.skip(i + 1));
        if m.list[i].0 == s {
            return Json::Number(m.list[i].1.clone());
        }
        i += 1;
    }
    Json::Null
}

// ---- what a graph holds ----

/// A list of texts, where it is not empty.
pub open spec fn some_texts_json(v: Seq<Seq<char>>) -> Option<JsonView> {
    if v.len() > 0 {
        Some(texts_json(v))
    } else {
        None
    }
}

/// A flag, where it is set.
pub open spec fn set_flag_json(b: bool) -> Option<JsonView> {
    if b {
        Some(JsonView::Bool(true))
    } else {
        None
    }
}

/// The first fields of a node as JSON.
pub open spec fn node_head(m: Seq<(Score, Seq<char>)>, n: NodeView) -> Seq<(Seq<char>, JsonView)> {
    seq![
        ("basis_score"@, score_json(m, n.basis_score)),
        ("begruendung"@, JsonView::Str(n.begruendung)),
        ("datum"@, JsonView::Str(n.datum)),
    ] + opt_field("erledigt"@, set_flag_json(n.erledigt)) + opt_field(
        "frage_id"@,
        opt_text_json(n.frage_id),
    ) + seq![
        ("herkunft"@, JsonView::Str(n.herkunft)),
        ("id"@, JsonView::Str(n.id)),
        ("inhalt"@, JsonView::Str(n.inhalt)),
    ]
}

/// The other fields of a node as JSON.
pub open spec fn node_tail(m: Seq<(Score, Seq<char>)>, n: NodeView) -> Seq<(Seq<char>, JsonView)> {
    opt_field("quelle_ids"@, some_texts_json(n.quelle_ids)) + seq![
        ("score"@, score_json(m, n.score)),
    ] + opt_field("session_id"@, opt_text_json(n.session_id)) + seq![
        ("status"@, JsonView::Str(n.status)),
    ] + opt_field("tags"@, some_texts_json(n.tags)) + seq![
        ("typ"@, JsonView::Str(n.typ.code())),
    ] + opt_field("ueberholt"@, set_flag_json(n.ueberholt)) + opt_field(
        "wert"@,
        opt_text_json(n.wert),
    )
}

/// A node as JSON. What it does not have, and flags that are not set, are left out.
pub open spec fn node_json(m: Seq<(Score, Seq<char>)>, n: NodeView) -> JsonView {
    JsonView::Obj(node_head(m, n) + node_tail(m, n))
}

/// An edge as JSON.
pub open spec fn edge_json(m: Seq<(Score, Seq<char>)>, e: EdgeView) -> JsonView {
    JsonView::Obj(
        seq![
            ("gewicht"@, score_json(m, e.gewicht)),
            ("id"@, JsonView::Str(e.id)),
            ("polaritaet"@, JsonView::Str(e.polaritaet)),
            ("von"@, JsonView::Str(e.von)),
            ("zu"@, JsonView::Str(e.zu)),
        ],
    )
}

/// A question as JSON.
pub open spec fn frage_json(f: FrageView) -> JsonView {
    JsonView::Obj(
        seq![
            ("id"@, JsonView::Str(f.id)),
            ("inhalt"@, JsonView::Str(f.inhalt)),
            ("werte"@, texts_json(f.werte)),
        ],
    )
}

/// A document as JSON.
pub open spec fn quelle_json(q: QuelleView) -> JsonView {
    JsonView::Obj(
        seq![
            ("art"@, JsonView::Str(q.art)),
            ("id"@, JsonView::Str(q.id)),
            ("pfad"@, JsonView::Str(q.pfad)),
            ("titel"@, JsonView::Str(q.titel)),
        ],
    )
}

/// A node of the overview as JSON.
pub open spec fn compact_node_json(m: Seq<(Score, Seq<char>)>, n: CompactNodeView) -> JsonView {
    JsonView::Obj(
        seq![
            ("id"@, JsonView::Str(n.id)),
            ("score"@, score_json(m, n.score)),
            ("status"@, JsonView::Str(n.status)),
        ] + opt_field("tags"@, some_texts_json(n.tags)) + seq![
            ("titel"@, JsonView::Str(n.titel)),
            ("typ"@, JsonView::Str(n.typ.code())),
        ] + opt_field("wert"@, opt_text_json(n.wert)),
    )
}

/// An edge of the overview as JSON.
pub open spec fn compact_edge_json(e: CompactEdgeView) -> JsonView {
    JsonView::Obj(
        seq![
            ("polaritaet"@, JsonView::Str(e.polaritaet)),
            ("von"@, JsonView::Str(e.von)),
            ("zu"@, JsonView::Str(e.zu)),
        ],
    )
}

/// A decision that holds as JSON.
pub open spec fn decision_json(d: DecisionView) -> JsonView {
    JsonView::Obj(
        seq![
            ("id"@, JsonView::Str(d.id)),
            ("inhalt"@, JsonView::Str(d.inhalt)),
            ("tags"@, texts_json(d.tags)),
        ],
    )
}

/// A question with its leading value as JSON; null where no value leads.
pub open spec fn question_json(q: QuestionView) -> JsonView {
    JsonView::Obj(
        seq![
            ("frage"@, JsonView::Str(q.frage)),
            (
                "fuehrend"@,
                match q.fuehrend {
                    Some(w) => JsonView::Str(w),
                    None => JsonView::Null,
                },
            ),
            ("id"@, JsonView::Str(q.id)),
            ("werte"@, texts_json(q.werte)),
        ],
    )
}

pub open spec fn nodes_json(m: Seq<(Score, Seq<char>)>, s: Seq<NodeView>) -> JsonView {
    JsonView::Arr(s.map_values(|n: NodeView| node_json(m, n)))
}

pub open spec fn edges_json(m: Seq<(Score, Seq<char>)>, s: Seq<EdgeView>) -> JsonView {
    JsonView::Arr(s.map_values(|e: EdgeView| edge_json(m, e)))
}

pub open spec fn fragen_json(s: Seq<FrageView>) -> JsonView {
    JsonView::Arr(s.map_values(|f: FrageView| frage_json(f)))
}

pub open spec fn quellen_json(s: Seq<QuelleView>) -> JsonView {
    JsonView::Arr(s.map_values(|q: QuelleView| quelle_json(q)))
}

pub open spec fn compact_nodes_json(m: Seq<(Score, Seq<char>)>, s: Seq<CompactNodeView>) -> JsonView {
    JsonView::Arr(s.map_values(|n: CompactNodeView| compact_node_json(m, n)))
}

pub open spec fn compact_edges_json(s: Seq<CompactEdgeView>) -> JsonView {
    JsonView::Arr(s.map_values(|e: CompactEdgeView| compact_edge_json(e)))
}

pub open spec fn decisions_json(s: Seq<DecisionView>) -> JsonView {
    JsonView::Arr(s.map_values(|d: DecisionView| decision_json(d)))
}

pub open spec fn questions_json(s: Seq<QuestionView>) -> JsonView {
    JsonView::Arr(s.map_values(|q: QuestionView| question_json(q)))
}

/// A graph as JSON.
pub open spec fn graph_json(m: Seq<(Score, Seq<char>)>, g: GraphView) -> JsonView {
    JsonView::Obj(
        seq![
            ("edges"@, edges_json(m, g.edges)),
            ("fragen"@, fragen_json(g.fragen)),
            ("nodes"@, nodes_json(m, g.nodes)),
            ("quellen"@, quellen_json(g.quellen)),
        ],
    )
}

fn some_texts(v: &Vec<String>) -> (r: Option<Json>)
    ensures
        some_texts_json(texts(v@)) == (match r {
            Some(j) => Some(j@),
            None => None,
        }),
{
    if v.len() > 0 {
        Some(json_texts(v))
    } else {
        None
    }
}

fn set_flag(b: bool) -> (r: Option<Json>)
    ensures
        set_flag_json(b) == (match r {
            Some(j) => Some(j@),
            None => None,
        }),
{
    if b {
        Some(Json::Bool(true))
    } else {
        None
    }
}

fn push_text(out: &mut Vec<(String, Json)>, key: &str, value: &str)
    ensures
        field_views(final(out)@) == field_views(old(out)@).push((key@, JsonView::Str(value@))),
{
    push_field(out, key, Json::Str(value.to_owned()));
}

fn push_node_head(f: &mut Vec<(String, Json)>, m: &Numerals, n: &Node)
    requires
        old(f)@.len() == 0,
    ensures
        field_views(final(f)@) == node_head(m@, n@),
{
    let ghost flags = opt_field("erledigt"@, set_flag_json(n.erledigt));
    let ghost question = opt_field("frage_id"@, opt_text_json(opt_text(n.frage_id)));
    push_field(f, "basis_score", write_score(m, n.basis_score));
    push_text(f, "begruendung", &n.begruendung);
    push_text(f, "datum", &n.datum);
    let ghost first = field_views(f@);
    push_opt(f, "erledigt", set_flag(n.erledigt));
    push_opt(f, "frage_id", opt_str(&n.frage_id));
    assert(field_views(f@) == first + flags + question);
    push_text(f, "herkunft", &n.herkunft);
    push_text(f, "id", &n.id);
    push_text(f, "inhalt", &n.inhalt);
    assert(field_views(f@) =~= first + flags + question + seq![
        ("herkunft"@, JsonView::Str(n@.herkunft)),
        ("id"@, JsonView::Str(n@.id)),
        ("inhalt"@, JsonView::Str(n@.inhalt)),
    ]);
    assert(first =~= seq![
        ("basis_score"@, score_json(m@, n@.basis_score)),
        ("begruendung"@, JsonView::Str(n@.begruendung)),
        ("datum"@, JsonView::Str(n@.datum)),
    ]);
}

fn push_node_tail(f: &mut Vec<(String, Json)>, m: &Numerals, n: &Node)
    requires
        old(f)@.len() == 0,
    ensures
        field_views(final(f)@) == node_tail(m@, n@),
{
    let ghost a = opt_field("quelle_ids"@, some_texts_json(n@.quelle_ids));
    let ghost b = a + seq![("score"@, score_json(m@, n@.score))];
    let ghost c = b + opt_field("session_id"@, opt_text_json(n@.session_id));
    let ghost d = c + seq![("status"@, JsonView::Str(n@.status))];
    let ghost e = d + opt_field("tags"@, some_texts_json(n@.tags));
    push_opt(f, "quelle_ids", some_texts(&n.quelle_ids));
    assert(field_views(f@) =~= a);
    push_field(f, "score", write_score(m, n.score));
    assert(field_views(f@) =~= b);
    push_opt(f, "session_id", opt_str(&n.session_id));
    assert(field_views(f@) == c);
    push_text(f, "status", &n.status);
    assert(field_views(f@) =~= d);
    push_opt(f, "tags", some_texts(&n.tags));
    assert(field_views(f@) == e);
    push_text(f, "typ", n.typ.as_code());
    assert(field_views(f@) =~= e + seq![("typ"@, JsonView::Str(n@.typ.code()))]);
    push_opt(f, "ueberholt", set_flag(n.ueberholt));
    push_opt(f, "wert", opt_str(&n.wert));
}

fn write_node(m: &Numerals, n: &Node) -> (r: Json)
    ensures
        r@ == node_json(m@, n@),
{
    let mut f: Vec<(String, Json)> = Vec::new();
    let mut rest: Vec<(String, Json)> = Vec::new();
    push_node_head(&mut f, m, n);
    push_node_tail(&mut rest, m, n);
    let ghost head = f@;
    let ghost tail = rest@;
    f.append(&mut rest);
    assert(field_views(f@) =~= field_views(head) + field_views(tail));
    Json::Obj(f)
}

fn write_edge(m: &Numerals, e: &Edge) -> (r: Json)
    ensures
        r@ == edge_json(m@, e@),
{
    let mut f: Vec<(String, Json)> = Vec::new();
    push_field(&mut f, "gewicht", write_score(m, e.gewicht));
    push_text(&mut f, "id", &e.id);
    push_text(&mut f, "polaritaet", &e.polaritaet);
    push_text(&mut f, "von", &e.von);
    push_text(&mut f, "zu", &e.zu);
    assert(field_views(f@) =~= edge_json(m@, e@)->Obj_0);
    Json::Obj(f)
}

fn write_frage(f: &Frage) -> (r: Json)
    ensures
        r@ == frage_json(f@),
{
    let mut o: Vec<(String, Json)> = Vec::new();
    push_text(&mut o, "id", &f.id);
    push_text(&mut o, "inhalt", &f.inhalt);
    push_field(&mut o, "werte", json_texts(&f.werte));
    assert(field_views(o@) =~= frage_json(f@)->Obj_0);
    Json::Obj(o)
}

fn write_quelle(q: &Quelle) -> (r: Json)
    ensures
        r@ == quelle_json(q@),
{
    let mut f: Vec<(String, Json)> = Vec::new();
    push_text(&mut f, "art", &q.art);
    push_text(&mut f, "id", &q.id);
    push_text(&mut f, "pfad", &q.pfad);
    push_text(&mut f, "titel", &q.titel);
    assert(field_views(f@) =~= quelle_json(q@)->Obj_0);
    Json::Obj(f)
}

fn write_compact_node(m: &Numerals, n: &CompactNode) -> (r: Json)
    ensures
        r@ == compact_node_json(m@, n@),
{
    let mut f: Vec<(String, Json)> = Vec::new();
    push_text(&mut f, "id", &n.id);
    push_field(&mut f, "score", write_score(m, n.score));
    push_text(&mut f, "status", &n.status);
    push_opt(&mut f, "tags", some_texts(&n.tags));
    push_text(&mut f, "titel", &n.titel);
    push_text(&mut f, "typ", n.typ.as_code());
    push_opt(&mut f, "wert", opt_str(&n.wert));
    assert(field_views(f@) =~= compact_node_json(m@, n@)->Obj_0);
    Json::Obj(f)
}

fn write_compact_edge(e: &CompactEdge) -> (r: Json)
    ensures
        r@ == compact_edge_json(e@),
{
    let mut f: Vec<(String, Json)> = Vec::new();
    push_text(&mut f, "polaritaet", &e.polaritaet);
    push_text(&mut f, "von", &e.von);
    push_text(&mut f, "zu", &e.zu);
    assert(field_views(f@) =~= compact_edge_json(e@)->Obj_0);
    Json::Obj(f)
}

fn write_decision(d: &Decision) -> (r: Json)
    ensures
        r@ == decision_json(d@),
{
    let mut f: Vec<(String, Json)> = Vec::new();
    push_text(&mut f, "id", &d.id);
    push_text(&mut f, "inhalt", &d.inhalt);
    push_field(&mut f, "tags", json_texts(&d.tags));
    assert(field_views(f@) =~= decision_json(d@)->Obj_0);
    Json::Obj(f)
}

fn write_question(q: &Question) -> (r: Json)
    ensures
        r@ == question_json(q@),
{
    let mut f: Vec<(String, Json)> = Vec::new();
    push_text(&mut f, "frage", &q.frage);
    let leading: Json = match &q.fuehrend {
        Some(w) => Json::Str(w.clone()),
        None => Json::Null,
    };
    push_field(&mut f, "fuehrend", leading);
    push_text(&mut f, "id", &q.id);
    push_field(&mut f, "werte", json_texts(&q.werte));
    assert(field_views(f@) =~= question_json(q@)->Obj_0);
    Json::Obj(f)
}

fn write_nodes(m: &Numerals, v: &Vec<Node>) -> (r: Json)
    ensures
        r@ == nodes_json(m@, node_views(v@)),
{
    let mut out: Vec<Json> = Vec::new();
    let mut i: usize = 0;
    while i < v.len()
        invariant
            i <= v.len(),
            out.len() == i,
            forall|k: int| 0 <= k < i ==> (#[trigger] out@[k])@ == node_json(m@, v@[k]@),
        decreases v.len() - i,
    {
        out.push(write_node(m, &v[i]));
        i += 1;
    }
    assert(item_views(out@) =~= nodes_json(m@, node_views(v@))->Arr_0);
    Json::Arr(out)
}

pub(crate) fn write_edges(m: &Numerals, v: &Vec<Edge>) -> (r: Json)
    ensures
        r@ == edges_json(m@, edge_views(v@)),
{
    let mut out: Vec<Json> = Vec::new();
    let mut i: usize = 0;
    while i < v.len()
        invariant
            i <= v.len(),
            out.len() == i,
            forall|k: int| 0 <= k < i ==> (#[trigger] out@[k])@ == edge_json(m@, v@[k]@),
        decreases v.len() - i,
    {
        out.push(write_edge(m, &v[i]));
        i += 1;
    }
    assert(item_views(out@) =~= edges_json(m@, edge_views(v@))->Arr_0);
    Json::Arr(out)
}

pub(crate) fn write_fragen(v: &Vec<Frage>) -> (r: Json)
    ensures
        r@ == fragen_json(frage_views(v@)),
{
    let mut out: Vec<Json> = Vec::new();
    let mut i: usize = 0;
    while i < v.len()
        invariant
            i <= v.len(),
            out.len() == i,
            forall|k: int| 0 <= k < i ==> (#[trigger] out@[k])@ == frage_json(v@[k]@),
        decreases v.len() - i,
    {
        out.push(write_frage(&v[i]));
        i += 1;
    }
    assert(item_views(out@) =~= fragen_json(frage_views(v@))->Arr_0);
    Json::Arr(out)
}

pub(crate) fn write_quellen(v: &Vec<Quelle>) -> (r: Json)
    ensures
        r@ == quellen_json(quelle_views(v@)),
{
    let mut out: Vec<Json> = Vec::new();
    let mut i: usize = 0;
    while i < v.len()
        invariant
            i <= v.len(),
            out.len() == i,
            forall|k: int| 0 <= k < i ==> (#[trigger] out@[k])@ == quelle_json(v@[k]@),
        decreases v.len() - i,
    {
        out.push(write_quelle(&v[i]));
        i += 1;
    }
    assert(item_views(out@) =~= quellen_json(quelle_views(v@))->Arr_0);
    Json::Arr(out)
}

fn write_compact_nodes(m: &Numerals, v: &Vec<CompactNode>) -> (r: Json)
    ensures
        r@ == compact_nodes_json(m@, compact_views(v@)),
{
    let mut out: Vec<Json> = Vec::new();
    let mut i: usize = 0;
    while i < v.len()
        invariant
            i <= v.len(),
            out.len() == i,
            forall|k: int| 0 <= k < i ==> (#[trigger] out@[k])@ == compact_node_json(m@, v@[k]@),
        decreases v.len() - i,
    {
        out.push(write_compact_node(m, &v[i]));
        i += 1;
    }
    assert(item_views(out@) =~= compact_nodes_json(m@, compact_views(v@))->Arr_0);
    Json::Arr(out)
}

fn write_compact_edges(v: &Vec<CompactEdge>) -> (r: Json)
    ensures
        r@ == compact_edges_json(compact_edge_views(v@)),
{
    let mut out: Vec<Json> = Vec::new();
    let mut i: usize = 0;
    while i < v.len()
        invariant
            i <= v.len(),
            out.len() == i,
            forall|k: int| 0 <= k < i ==> (#[trigger] out@[k])@ == compact_edge_json(v@[k]@),
        decreases v.len() - i,
    {
        out.push(write_compact_edge(&v[i]));
        i += 1;
    }
    assert(item_views(out@) =~= compact_edges_json(compact_edge_views(v@))->Arr_0);
    Json::Arr(out)
}

fn write_decisions(v: &Vec<Decision>) -> (r: Json)
    ensures
        r@ == decisions_json(decision_views(v@)),
{
    let mut out: Vec<Json> = Vec::new();
    let mut i: usize = 0;
    while i < v.len()
        invariant
            i <= v.len(),
            out.len() == i,
            forall|k: int| 0 <= k < i ==> (#[trigger] out@[k])@ == decision_json(v@[k]@),
        decreases v.len() - i,
    {
        out.push(write_decision(&v[i]));
        i += 1;
    }
    assert(item_views(out@) =~= decisions_json(decision_views(v@))->Arr_0);
    Json::Arr(out)
}

fn write_questions(v: &Vec<Question>) -> (r: Json)
    ensures
        r@ == questions_json(question_views(v@)),
{
    let mut out: Vec<Json> = Vec::new();
    let mut i: usize = 0;
    while i < v.len()
        invariant
            i <= v.len(),
            out.len() == i,
            forall|k: int| 0 <= k < i ==> (#[trigger] out@[k])@ == question_json(v@[k]@),
        decreases v.len() - i,
    {
        out.push(write_question(&v[i]));
        i += 1;
    }
    assert(item_views(out@) =~= questions_json(question_views(v@))->Arr_0);
    Json::Arr(out)
}

/// Writes a graph as JSON.
pub fn write_graph(m: &Numerals, g: &KnowledgeGraph) -> (r: Json)
    ensures
        r@ == graph_json(m@, g@),
{
    let mut f: Vec<(String, Json)> = Vec::new();
    push_field(&mut f, "edges", write_edges(m, &g.edges));
    push_field(&mut f, "fragen", write_fragen(&g.fragen));
    push_field(&mut f, "nodes", write_nodes(m, &g.nodes));
    push_field(&mut f, "quellen", write_quellen(&g.quellen));
    assert(field_views(f@) =~= graph_json(m@, g@)->Obj_0);
    Json::Obj(f)
}

// ---- replies ----

/// What is said of a statement that was recorded before.
pub const DUPLICATE_NOTE: &'static str =
    "already recorded (same statement) — not duplicated; use update_knowledge to change it or link to it";

/// What is said to one who wants to be told of changes.
pub const SUBSCRIBE_NOTE: &'static str =
    "change-event stream wired when the GUI consumes it (Schritt 6)";

/// What was recorded as JSON.
pub open spec fn entity_json(m: Seq<(Score, Seq<char>)>, e: EntityView) -> JsonView {
    match e {
        EntityView::Node(n) => node_json(m, n),
        EntityView::Edge(e) => edge_json(m, e),
    }
}

/// What a reply holds as JSON. The decisions that hold stand under a German and an English
/// key; links are left out where there are none, and so is that nothing was skipped.
pub open spec fn reply_view(m: Seq<(Score, Seq<char>)>, r: ReplyView) -> JsonView {
    match r {
        ReplyView::Nothing => JsonView::Null,
        ReplyView::Pong { project } => JsonView::Obj(
            seq![
                ("pong"@, JsonView::Bool(true)),
                ("project"@, JsonView::Str(project)),
                ("via"@, JsonView::Str("knowledge-observer"@)),
            ],
        ),
        ReplyView::Overview { nodes, edges, fragen, hints } => JsonView::Obj(
            seq![
                ("edges"@, compact_edges_json(edges)),
                ("fragen"@, fragen_json(fragen)),
                ("hints"@, texts_json(hints)),
                ("nodes"@, compact_nodes_json(m, nodes)),
            ],
        ),
        ReplyView::Subgraph { graph } => graph_json(m, graph),
        ReplyView::Recorded { entity, hints, links } => JsonView::Obj(
            seq![("hints"@, texts_json(hints))] + opt_field("links"@, some_texts_json(links))
                + seq![("recorded"@, entity_json(m, entity))],
        ),
        ReplyView::Duplicate { node, duplicate_of, hints } => JsonView::Obj(
            seq![
                ("duplicate_of"@, JsonView::Str(duplicate_of)),
                ("hints"@, texts_json(hints)),
                ("note"@, JsonView::Str(DUPLICATE_NOTE@)),
                ("recorded"@, node_json(m, node)),
            ],
        ),
        ReplyView::Documents { documents } => JsonView::Obj(
            seq![("documents"@, quellen_json(documents))],
        ),
        ReplyView::State { decisions, open, answered } => JsonView::Obj(
            seq![
                ("active_decisions"@, decisions_json(decisions)),
                ("aktive_entscheidungen"@, decisions_json(decisions)),
                ("beantwortete_fragen"@, questions_json(answered)),
                ("offene_fragen"@, questions_json(open)),
            ],
        ),
        ReplyView::Health { since } => JsonView::Obj(
            seq![
                ("ok"@, JsonView::Bool(true)),
                ("sessions"@, JsonView::Arr(Seq::empty())),
                ("since"@, JsonView::Number(text::decimal(since as nat))),
            ],
        ),
        ReplyView::Hint { hint } => JsonView::Obj(seq![("hint"@, JsonView::Str(hint))]),
        ReplyView::Accepted { skipped } => JsonView::Obj(
            seq![("ok"@, JsonView::Bool(true))] + opt_field("skipped"@, set_flag_json(skipped)),
        ),
        ReplyView::NotSubscribed => JsonView::Obj(
            seq![
                ("note"@, JsonView::Str(SUBSCRIBE_NOTE@)),
                ("ok"@, JsonView::Bool(true)),
                ("subscribed"@, JsonView::Bool(false)),
            ],
        ),
    }
}

/// Writes what a reply holds as JSON.
pub fn reply_json(m: &Numerals, reply: &Reply) -> (r: Json)
    ensures
        r@ == reply_view(m@, reply@),
{
    let mut f: Vec<(String, Json)> = Vec::new();
    match reply {
        Reply::Nothing => return Json::Null,
        Reply::Subgraph { graph } => return write_graph(m, graph),
        Reply::Pong { project } => {
            push_field(&mut f, "pong", Json::Bool(true));
            push_text(&mut f, "project", project);
            push_text(&mut f, "via", "knowledge-observer");
        },
        Reply::Overview { nodes, edges, fragen, hints } => {
            push_field(&mut f, "edges", write_compact_edges(edges));
            push_field(&mut f, "fragen", write_fragen(fragen));
            push_field(&mut f, "hints", json_texts(hints));
            push_field(&mut f, "nodes", write_compact_nodes(m, nodes));
        },
        Reply::Recorded { entity, hints, links } => {
            push_field(&mut f, "hints", json_texts(hints));
            push_opt(&mut f, "links", some_texts(links));
            let recorded: Json = match entity {
                Entity::Node(n) => write_node(m, n),
                Entity::Edge(e) => write_edge(m, e),
            };
            push_field(&mut f, "recorded", recorded);
        },
        Reply::Duplicate { node, duplicate_of, hints } => {
            push_text(&mut f, "duplicate_of", duplicate_of);
            push_field(&mut f, "hints", json_texts(hints));
            push_text(&mut f, "note", DUPLICATE_NOTE);
            push_field(&mut f, "recorded", write_node(m, node));
        },
        Reply::Documents { documents } => {
            push_field(&mut f, "documents", write_quellen(documents));
        },
        Reply::State { decisions, open, answered } => {
            push_field(&mut f, "active_decisions", write_decisions(decisions));
            push_field(&mut f, "aktive_entscheidungen", write_decisions(decisions));
            push_field(&mut f, "beantwortete_fragen", write_questions(answered));
            push_field(&mut f, "offene_fragen", write_questions(open));
        },
        Reply::Health { since } => {
            let none: Vec<Json> = Vec::new();
            assert(item_views(none@) =~= Seq::empty());
            push_field(&mut f, "ok", Json::Bool(true));
            push_field(&mut f, "sessions", Json::Arr(none));
            push_field(&mut f, "since", Json::Number(text::number(*since)));
        },
        Reply::Hint { hint } => {
            push_text(&mut f, "hint", hint);
        },
        Reply::Accepted { skipped } => {
            push_field(&mut f, "ok", Json::Bool(true));
            push_opt(&mut f, "skipped", set_flag(*skipped));
        },
        Reply::NotSubscribed => {
            push_text(&mut f, "note", SUBSCRIBE_NOTE);
            push_field(&mut f, "ok", Json::Bool(true));
            push_field(&mut f, "subscribed", Json::Bool(false));
        },
    }
    assert(field_views(f@) =~= reply_view(m@, reply@)->Obj_0);
    Json::Obj(f)
}

} // verus!

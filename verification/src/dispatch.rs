//! Requests to the store. A request is worked on a scored graph in memory. Where it
//! changes the graph, the caller scores and stores it, and the reply is then made from
//! the graph as it has become.

use vstd::prelude::*;
use vstd::string::StringExecFns;

use crate::ipc::{
    accepted, compact_edge_views, compact_views, decision_views, question_views, rejected,
    CompactEdge, CompactEdgeView, CompactNode, CompactNodeView, Decision, DecisionView, Entity,
    EntityView, IpcRequest, IpcResponse, Question, QuestionView, Reply, ReplyView, RequestView,
    ResponseView,
};
use crate::json::{
    field, flag_field, item_views, natural_field, text_field, text_value, Json, JsonView,
};
use crate::record::opt_texts;
use crate::score::Score;
use crate::store::filter::{
    apply_filter, filtered, get_subgraph, neighbourhood, no_filter, FilterView, QueryFilter,
};
use crate::store::hygiene::{hints, hygiene_hints};
use crate::store::ids::{fresh_id, is_utc_date, is_uuid, now};
use crate::store::lookup::{duplicate, find_duplicate, resolve_ref, resolved};
use crate::store::merge::{merge_nodes, merge_refusal, merged};
use crate::store::model::{
    copy_quellen, frage_views, node_views, quelle_views, Edge, EdgeView, Frage, FrageView,
    GraphView, KnowledgeGraph, Node, NodeType, NodeView, Quelle, QuelleView,
};
use crate::store::ops::{
    edge_refusal, insert_edge, insert_fact, insert_node, new_edge, new_node, patched,
    set_origin_session, set_quellen, update_node, with_edge, with_fact, with_node_at,
};
use crate::store::state::{
    active_decisions, find_active_decisions, is_answered, judge_question, leading_value,
};
use crate::text;
use crate::text::{lowercase, opt_text, shortened, texts, trimmed};

verus! {

broadcast use {crate::json::lemma_array_view, crate::json::lemma_object_view};

// ---- what a request brings along ----

/// The numbers of a payload that are not whole: they are read by the caller.
#[derive(Debug, Clone, Copy, PartialEq, Eq, Structural)]
pub struct Numbers {
    pub basis_score: Option<Score>,
    pub gewicht: Option<Score>,
}

/// What is new with every request: fresh ids and the date.
#[derive(Debug)]
pub struct Fresh {
    pub node_id: String,
    pub frage_id: String,
    pub datum: String,
    pub edge_ids: Vec<String>,
}

#[verifier::ext_equal]
pub struct FreshView {
    pub node_id: Seq<char>,
    pub frage_id: Seq<char>,
    pub datum: Seq<char>,
    pub edge_ids: Seq<Seq<char>>,
}

impl View for Fresh {
    type V = FreshView;

    open spec fn view(&self) -> FreshView {
        FreshView {
            node_id: self.node_id@,
            frage_id: self.frage_id@,
            datum: self.datum@,
            edge_ids: texts(self.edge_ids@),
        }
    }
}

/// What a caller has to have at hand for a request.
#[derive(Debug, Clone, Copy, PartialEq, Eq, Structural)]
pub enum Needs {
    Nothing,
    Graph,
    Documents,
}

/// What a request needs. A disabled project needs nothing.
pub open spec fn needs_of(op: Seq<char>, enabled: bool) -> Needs {
    if !enabled {
        Needs::Nothing
    } else if op == "list_documents"@ {
        Needs::Documents
    } else if op == "query"@ || op == "get"@ || op == "record"@ || op == "link"@ || op == "merge"@
        || op == "add_fact"@ || op == "update"@ || op == "current_state"@ {
        Needs::Graph
    } else {
        Needs::Nothing
    }
}

/// What a request needs.
pub fn needs(op: &str, enabled: bool) -> (r: Needs)
    ensures
        r == needs_of(op@, enabled),
{
    if !enabled {
        Needs::Nothing
    } else if text::same(op, "list_documents") {
        Needs::Documents
    } else if text::same(op, "query") || text::same(op, "get") || text::same(op, "record")
        || text::same(op, "link") || text::same(op, "merge") || text::same(op, "add_fact")
        || text::same(op, "update") || text::same(op, "current_state") {
        Needs::Graph
    } else {
        Needs::Nothing
    }
}

// ---- reading a payload ----

/// A text that is there and not blank.
pub open spec fn nonempty_text(p: JsonView, key: Seq<char>) -> Option<Seq<char>> {
    match text_field(p, key) {
        Some(t) => if trimmed(t).len() > 0 {
            Some(t)
        } else {
            None
        },
        None => None,
    }
}

/// The texts among the first `n` items that are not blank; trimmed, or (`trims` unset) as
/// they are.
pub open spec fn plain_texts(items: Seq<JsonView>, trims: bool, n: int) -> Seq<Seq<char>>
    decreases n,
{
    if n <= 0 {
        Seq::empty()
    } else {
        let before = plain_texts(items, trims, n - 1);
        match text_value(items[n - 1]) {
            Some(t) => if trimmed(t).len() > 0 {
                before.push(
                    if trims {
                        trimmed(t)
                    } else {
                        t
                    },
                )
            } else {
                before
            },
            None => before,
        }
    }
}

/// The texts of an array; nothing where there are none.
pub open spec fn text_array(p: JsonView, key: Seq<char>, trims: bool) -> Option<Seq<Seq<char>>> {
    match field(p, key) {
        Some(JsonView::Arr(items)) => {
            let t = plain_texts(items, trims, items.len() as int);
            if t.len() > 0 {
                Some(t)
            } else {
                None
            }
        },
        _ => None,
    }
}

/// The texts of an array that is there, also where none is left; nothing where there is no
/// array.
pub open spec fn given_array(p: JsonView, key: Seq<char>) -> Option<Seq<Seq<char>>> {
    match field(p, key) {
        Some(JsonView::Arr(items)) => Some(plain_texts(items, true, items.len() as int)),
        _ => None,
    }
}

/// The type that a payload names.
pub open spec fn typ_field(p: JsonView) -> Option<NodeType> {
    match text_field(p, "typ"@) {
        Some(t) => NodeType::of_code(lowercase(trimmed(t))),
        None => None,
    }
}

/// The query that a payload asks for.
pub open spec fn filter_of(p: JsonView) -> FilterView {
    FilterView {
        q: nonempty_text(p, "q"@),
        typ: typ_field(p),
        status: nonempty_text(p, "status"@),
        limit: match natural_field(p, "limit"@) {
            Some(n) => Some(n as usize),
            None => None,
        },
        tags: match text_array(p, "tags"@, true) {
            Some(t) => t,
            None => Seq::empty(),
        },
    }
}

/// A text that is there and not blank.
pub fn nonempty(p: &Json, key: &str) -> (r: Option<String>)
    ensures
        opt_text(r) == nonempty_text(p@, key@),
{
    match p.get_text(key) {
        Some(t) => if text::is_blank(&t) {
            None
        } else {
            Some(t)
        },
        None => None,
    }
}

fn gather_texts(items: &Vec<Json>, trims: bool) -> (r: Vec<String>)
    ensures
        texts(r@) == plain_texts(item_views(items@), trims, items@.len() as int),
{
    let ghost all = item_views(items@);
    let mut out: Vec<String> = Vec::new();
    let mut i: usize = 0;
    assert(texts(out@) =~= plain_texts(all, trims, 0));
    while i < items.len()
        invariant
            all == item_views(items@),
            i <= items.len(),
            texts(out@) == plain_texts(all, trims, i as int),
        decreases items.len() - i,
    {
        assert(all[i as int] == items@[i as int]@);
        if let Some(s) = items[i].as_str() {
            let t: String = text::trim(s);
            if !t.as_str().is_empty() {
                let ghost before = out@;
                let kept: String = if trims {
                    t
                } else {
                    s.clone()
                };
                out.push(kept);
                assert(texts(out@) =~= texts(before).push(kept@));
            }
        }
        i += 1;
    }
    out
}

fn read_text_array(p: &Json, key: &str, trims: bool) -> (r: Option<Vec<String>>)
    ensures
        match r {
            Some(v) => text_array(p@, key@, trims) == Some(texts(v@)),
            None => text_array(p@, key@, trims) is None,
        },
{
    match p.get(key) {
        Some(Json::Arr(items)) => {
            let v: Vec<String> = gather_texts(items, trims);
            assert(texts(v@).len() == v@.len());
            if v.len() == 0 {
                None
            } else {
                Some(v)
            }
        },
        _ => None,
    }
}

fn read_given_array(p: &Json, key: &str) -> (r: Option<Vec<String>>)
    ensures
        opt_texts(r) == given_array(p@, key@),
{
    match p.get(key) {
        Some(Json::Arr(items)) => Some(gather_texts(items, true)),
        _ => None,
    }
}

/// The texts of an array, trimmed; nothing where there are none.
pub fn parse_str_array(p: &Json, key: &str) -> (r: Option<Vec<String>>)
    ensures
        match r {
            Some(v) => text_array(p@, key@, true) == Some(texts(v@)),
            None => text_array(p@, key@, true) is None,
        },
{
    read_text_array(p, key, true)
}

/// The documents that a payload cites; nothing where there are none.
pub fn parse_quellen(p: &Json) -> (r: Option<Vec<String>>)
    ensures
        match r {
            Some(v) => text_array(p@, "quellen"@, false) == Some(texts(v@)),
            None => text_array(p@, "quellen"@, false) is None,
        },
{
    read_text_array(p, "quellen", false)
}

fn read_typ(p: &Json) -> (r: Option<NodeType>)
    ensures
        r == typ_field(p@),
{
    match p.get_text("typ") {
        Some(t) => NodeType::parse(&t),
        None => None,
    }
}

/// The query that a payload asks for.
pub fn parse_query_filter(p: &Json) -> (r: QueryFilter)
    ensures
        r@ == filter_of(p@),
{
    let tags: Vec<String> = match parse_str_array(p, "tags") {
        Some(t) => t,
        None => {
            let none: Vec<String> = Vec::new();
            assert(texts(none@) =~= Seq::empty());
            none
        },
    };
    QueryFilter {
        q: nonempty(p, "q"),
        typ: read_typ(p),
        status: nonempty(p, "status"),
        limit: match p.get_natural("limit") {
            Some(n) => Some(n as usize),
            None => None,
        },
        tags,
    }
}

// ---- what working a request gives ----

/// What was recorded, to be shown as it stands once the graph is scored.
#[derive(Debug)]
pub enum Recorded {
    /// The first node with an id.
    Node(String),
    /// The same, without the sources, tags and origin that were put on afterwards.
    Bare(String),
    Edge(Edge),
}

#[verifier::ext_equal]
pub enum RecordedView {
    Node(Seq<char>),
    Bare(Seq<char>),
    Edge(EdgeView),
}

impl View for Recorded {
    type V = RecordedView;

    open spec fn view(&self) -> RecordedView {
        match *self {
            Recorded::Node(id) => RecordedView::Node(id@),
            Recorded::Bare(id) => RecordedView::Bare(id@),
            Recorded::Edge(e) => RecordedView::Edge(e@),
        }
    }
}

/// The outcome of a request.
#[derive(Debug)]
pub enum Answer {
    Refused(String),
    Ready(Reply),
    Recorded { what: Recorded, links: Vec<String> },
}

#[verifier::ext_equal]
pub enum AnswerView {
    Refused(Seq<char>),
    Ready(ReplyView),
    Recorded { what: RecordedView, links: Seq<Seq<char>> },
}

impl View for Answer {
    type V = AnswerView;

    open spec fn view(&self) -> AnswerView {
        match *self {
            Answer::Refused(t) => AnswerView::Refused(t@),
            Answer::Ready(r) => AnswerView::Ready(r@),
            Answer::Recorded { what, links } => AnswerView::Recorded {
                what: what@,
                links: texts(links@),
            },
        }
    }
}

/// What working a request gave.
#[derive(Debug)]
pub struct Done {
    pub answer: Answer,
    /// The graph has changed in what it knows.
    pub changed: bool,
    /// The graph has to be stored.
    pub save: bool,
}

#[verifier::ext_equal]
pub struct DoneView {
    pub graph: GraphView,
    pub answer: AnswerView,
    pub changed: bool,
    pub save: bool,
}

/// What working a request gave, together with the graph.
pub open spec fn done_with(g: GraphView, d: Done) -> DoneView {
    DoneView { graph: g, answer: d.answer@, changed: d.changed, save: d.save }
}

/// The request is refused and nothing changes.
pub open spec fn refusal(g: GraphView, t: Seq<char>) -> DoneView {
    DoneView { graph: g, answer: AnswerView::Refused(t), changed: false, save: false }
}

/// The request is answered and nothing changes.
pub open spec fn reading(g: GraphView, r: ReplyView) -> DoneView {
    DoneView { graph: g, answer: AnswerView::Ready(r), changed: false, save: false }
}

/// The request has changed the graph.
pub open spec fn writing(g: GraphView, what: RecordedView, links: Seq<Seq<char>>) -> DoneView {
    DoneView {
        graph: g,
        answer: AnswerView::Recorded { what, links },
        changed: true,
        save: true,
    }
}

fn refuse(t: String) -> (r: Done)
    ensures
        forall|g: GraphView| #[trigger] done_with(g, r) == refusal(g, t@),
{
    Done { answer: Answer::Refused(t), changed: false, save: false }
}

fn read(reply: Reply) -> (r: Done)
    ensures
        forall|g: GraphView| #[trigger] done_with(g, r) == reading(g, reply@),
{
    Done { answer: Answer::Ready(reply), changed: false, save: false }
}

fn wrote(what: Recorded, links: Vec<String>) -> (r: Done)
    ensures
        forall|g: GraphView| #[trigger] done_with(g, r) == writing(g, what@, texts(links@)),
{
    Done { answer: Answer::Recorded { what, links }, changed: true, save: true }
}

// ---- query ----

/// A node in the overview.
pub open spec fn compact_node(n: NodeView) -> CompactNodeView {
    CompactNodeView {
        id: n.id,
        typ: n.typ,
        status: n.status,
        score: n.score,
        titel: shortened(n.inhalt, 100, "…"@),
        tags: n.tags,
        wert: n.wert,
    }
}

/// An edge in the overview.
pub open spec fn compact_edge(e: EdgeView) -> CompactEdgeView {
    CompactEdgeView { von: e.von, zu: e.zu, polaritaet: e.polaritaet }
}

/// The overview of a graph.
pub open spec fn overview(g: GraphView, notes: Seq<Seq<char>>) -> ReplyView {
    ReplyView::Overview {
        nodes: g.nodes.map_values(|n: NodeView| compact_node(n)),
        edges: g.edges.map_values(|e: EdgeView| compact_edge(e)),
        fragen: g.fragen,
        hints: notes,
    }
}

/// The overview of a graph.
pub fn compact_graph(g: &KnowledgeGraph, hints: Vec<String>) -> (r: Reply)
    ensures
        r@ == overview(g@, texts(hints@)),
{
    let mut nodes: Vec<CompactNode> = Vec::new();
    let mut i: usize = 0;
    while i < g.nodes.len()
        invariant
            i <= g.nodes.len(),
            nodes.len() == i,
            forall|k: int| 0 <= k < i ==> (#[trigger] nodes@[k])@ == compact_node(g.nodes@[k]@),
        decreases g.nodes.len() - i,
    {
        let n: &Node = &g.nodes[i];
        nodes.push(
            CompactNode {
                id: n.id.clone(),
                typ: n.typ,
                status: n.status.clone(),
                score: n.score,
                titel: text::shorten(&n.inhalt, 100, "…"),
                tags: text::clone_texts(&n.tags),
                wert: text::clone_opt(&n.wert),
            },
        );
        i += 1;
    }
    let mut edges: Vec<CompactEdge> = Vec::new();
    let mut i: usize = 0;
    while i < g.edges.len()
        invariant
            i <= g.edges.len(),
            edges.len() == i,
            forall|k: int| 0 <= k < i ==> (#[trigger] edges@[k])@ == compact_edge(g.edges@[k]@),
        decreases g.edges.len() - i,
    {
        let e: &Edge = &g.edges[i];
        edges.push(
            CompactEdge {
                von: e.von.clone(),
                zu: e.zu.clone(),
                polaritaet: e.polaritaet.clone(),
            },
        );
        i += 1;
    }
    let mut fragen: Vec<Frage> = Vec::new();
    let mut i: usize = 0;
    while i < g.fragen.len()
        invariant
            i <= g.fragen.len(),
            fragen.len() == i,
            forall|k: int| 0 <= k < i ==> (#[trigger] fragen@[k])@ == g.fragen@[k]@,
        decreases g.fragen.len() - i,
    {
        fragen.push(g.fragen[i].copy());
        i += 1;
    }
    assert(compact_views(nodes@) =~= g@.nodes.map_values(|n: NodeView| compact_node(n)));
    assert(compact_edge_views(edges@) =~= g@.edges.map_values(|e: EdgeView| compact_edge(e)));
    assert(frage_views(fragen@) =~= g@.fragen);
    Reply::Overview { nodes, edges, fragen, hints }
}

/// What accompanies the answer to a query: that it is a part of the graph, the tidying
/// hints, and how to get more.
pub open spec fn query_notes(g: GraphView, f: FilterView) -> Seq<Seq<char>> {
    let view = filtered(g, f);
    (if f != no_filter() && view.nodes.len() < g.nodes.len() {
        seq![
            "Gefiltert: "@ + text::decimal(view.nodes.len()) + " von "@ + text::decimal(
                g.nodes.len(),
            ) + " Knoten. Filter: q/typ/status/tags/limit."@,
        ]
    } else {
        Seq::empty()
    }) + hints(g) + seq![QUERY_NOTE@]
}

/// How to get more than the overview.
pub const QUERY_NOTE: &'static str =
    "Kompakter Überblick (id+typ+titel). Volldetails (begruendung/quellen/inhalt) je Knoten via get_knowledge(ids:[...]).";

fn query(graph: &KnowledgeGraph, p: &Json) -> (r: Done)
    ensures
        done_with(graph@, r) == reading(
            graph@,
            overview(filtered(graph@, filter_of(p@)), query_notes(graph@, filter_of(p@))),
        ),
{
    let tidy: Vec<String> = hygiene_hints(graph);
    let filter: QueryFilter = parse_query_filter(p);
    let view: KnowledgeGraph = apply_filter(graph, &filter);
    let mut notes: Vec<String> = Vec::new();
    assert(view@.nodes.len() == view.nodes@.len() && graph@.nodes.len() == graph.nodes@.len());
    if filter.is_active() && view.nodes.len() < graph.nodes.len() {
        notes.push(
            "Gefiltert: ".to_owned().concat(&text::number(view.nodes.len() as u64)).concat(
                " von ",
            ).concat(&text::number(graph.nodes.len() as u64)).concat(
                " Knoten. Filter: q/typ/status/tags/limit.",
            ),
        );
    }
    let ghost first = texts(notes@);
    let mut tidy: Vec<String> = tidy;
    let ghost middle = texts(tidy@);
    let ghost before = notes@;
    notes.append(&mut tidy);
    assert(texts(notes@) =~= first + middle);
    notes.push(QUERY_NOTE.to_owned());
    assert(texts(notes@) =~= query_notes(graph@, filter@));
    read(compact_graph(&view, notes))
}

// ---- get ----

/// The ids that a deep fetch asks for, and how far.
pub open spec fn get_done(g: GraphView, p: JsonView) -> DoneView {
    match text_array(p, "ids"@, true) {
        None => refusal(g, "get: requires 'ids' (node ids from query_knowledge)"@),
        Some(ids) => reading(
            g,
            ReplyView::Subgraph {
                graph: neighbourhood(
                    g,
                    ids,
                    match natural_field(p, "depth"@) {
                        Some(n) => n as usize as nat,
                        None => 1,
                    },
                ),
            },
        ),
    }
}

fn get(graph: &KnowledgeGraph, p: &Json) -> (r: Done)
    ensures
        done_with(graph@, r) == get_done(graph@, p@),
{
    let ids: Vec<String> = match parse_str_array(p, "ids") {
        Some(ids) => ids,
        None => return refuse(
            "get: requires 'ids' (node ids from query_knowledge)".to_owned(),
        ),
    };
    let depth: usize = match p.get_natural("depth") {
        Some(n) => n as usize,
        None => 1,
    };
    read(Reply::Subgraph { graph: get_subgraph(graph, &ids, depth) })
}

// ---- record ----

/// The graph with fields of the first node with an id changed.
pub open spec fn updated(
    g: GraphView,
    id: Seq<char>,
    quellen: Option<Seq<Seq<char>>>,
    tags: Option<Seq<Seq<char>>>,
) -> GraphView {
    match g.position(id) {
        Some(i) => with_node_at(
            g,
            i,
            patched(g.nodes[i], None, None, None, None, quellen, tags, None, None),
        ),
        None => g,
    }
}

/// The graph with the origin of the first node with an id stamped, where there is one.
pub open spec fn stamped(g: GraphView, id: Seq<char>, session: Seq<char>) -> GraphView {
    let s = trimmed(session);
    if s.len() == 0 {
        g
    } else {
        match g.position(id) {
            Some(i) => with_node_at(g, i, NodeView { session_id: Some(s), ..g.nodes[i] }),
            None => g,
        }
    }
}

/// The graph with what a payload says beside the node itself put on it: sources and
/// tags, and the session that recorded it.
pub open spec fn annotated(
    g: GraphView,
    id: Seq<char>,
    p: JsonView,
    session: Seq<char>,
) -> GraphView {
    stamped(
        updated(g, id, text_array(p, "quellen"@, false), text_array(p, "tags"@, true)),
        id,
        session,
    )
}

/// A text of a link, with a default.
pub open spec fn link_text(l: JsonView, key: Seq<char>, default: Seq<char>) -> Seq<char> {
    match text_field(l, key) {
        Some(t) => t,
        None => default,
    }
}

/// One link of a new node: the graph with its edge, if it can be added, and a line on how
/// it went. References are looked up in `base`.
pub open spec fn linked_once(
    base: GraphView,
    g: GraphView,
    new_id: Seq<char>,
    edge_id: Seq<char>,
    l: JsonView,
) -> (GraphView, Seq<char>) {
    let ziel = trimmed(link_text(l, "ziel"@, Seq::empty()));
    let pol = link_text(l, "polaritaet"@, "stuetzt"@);
    let als = link_text(l, "als"@, "parent"@);
    if ziel.len() == 0 {
        (g, "link skipped: missing 'ziel'"@)
    } else {
        match resolved(base, ziel) {
            Err(e) => (g, "link to '"@ + ziel + "' failed: "@ + e),
            Ok(zid) => {
                let von = if als == "child"@ {
                    zid
                } else {
                    new_id
                };
                let zu = if als == "child"@ {
                    new_id
                } else {
                    zid
                };
                match edge_refusal(g, von, zu, pol) {
                    Some(e) => (g, "link to '"@ + ziel + "' failed: "@ + e),
                    None => (
                        with_edge(g, edge_id, von, zu, pol, None),
                        "linked "@ + von + " -"@ + pol + "-> "@ + zu,
                    ),
                }
            },
        }
    }
}

/// The first `n` links of a new node.
pub open spec fn linked_all(
    base: GraphView,
    new_id: Seq<char>,
    edge_ids: Seq<Seq<char>>,
    links: Seq<JsonView>,
    n: int,
) -> (GraphView, Seq<Seq<char>>)
    decreases n,
{
    if n <= 0 {
        (base, Seq::empty())
    } else {
        let before = linked_all(base, new_id, edge_ids, links, n - 1);
        let step = linked_once(base, before.0, new_id, edge_ids[n - 1], links[n - 1]);
        (step.0, before.1.push(step.1))
    }
}

/// The links that a payload brings along.
pub open spec fn links_field(p: JsonView) -> Seq<JsonView> {
    match field(p, "links"@) {
        Some(JsonView::Arr(items)) => items,
        _ => Seq::empty(),
    }
}

/// Why a record is refused that names no type.
pub const RECORD_TYP: &'static str =
    "record: missing/invalid 'typ' (entscheidung|erkenntnis|fakt|beobachtung|recherche|vermutung)";

/// Why a record is refused that gives no reason.
pub const RECORD_WHY: &'static str =
    "record: missing 'begruendung' — give the WHY: the question it answers (beobachtung/recherche/vermutung), the rationale (erkenntnis), the purpose 'damit/wozu' (entscheidung), or the source/where-from (fakt)";

/// What recording gives. A statement that is already there is not recorded again.
pub open spec fn record_done(
    g: GraphView,
    p: JsonView,
    numbers: Numbers,
    session: Seq<char>,
    f: FreshView,
) -> DoneView {
    match (typ_field(p), text_field(p, "inhalt"@), nonempty_text(p, "begruendung"@)) {
        (None, _, _) => refusal(g, RECORD_TYP@),
        (Some(_), None, _) => refusal(g, "record: missing 'inhalt'"@),
        (Some(_), Some(_), None) => refusal(g, RECORD_WHY@),
        (Some(typ), Some(inhalt), Some(why)) => match duplicate(g.nodes, typ, inhalt, 0) {
            Some(i) => reading(
                g,
                ReplyView::Duplicate {
                    node: g.nodes[g.position(g.nodes[i].id)->0],
                    duplicate_of: g.nodes[i].id,
                    hints: hints(g),
                },
            ),
            None => {
                let n = new_node(
                    f.node_id,
                    f.datum,
                    typ,
                    inhalt,
                    why,
                    numbers.basis_score,
                    "session"@,
                    None,
                    None,
                );
                let g1 = GraphView { nodes: g.nodes.push(n), ..g };
                let g2 = annotated(g1, f.node_id, p, session);
                let links = links_field(p);
                let end = linked_all(g2, f.node_id, f.edge_ids, links, links.len() as int);
                writing(end.0, RecordedView::Node(f.node_id), end.1)
            },
        },
    }
}

/// Puts sources, tags and origin on a node.
fn annotate(graph: &mut KnowledgeGraph, id: &str, p: &Json, session_id: &str)
    ensures
        final(graph)@ == annotated(old(graph)@, id@, p@, session_id@),
{
    let ghost before = graph@;
    let quellen: Option<Vec<String>> = parse_quellen(p);
    let tags: Option<Vec<String>> = parse_str_array(p, "tags");
    let ghost q = text_array(p@, "quellen"@, false);
    let ghost t = text_array(p@, "tags"@, true);
    if quellen.is_some() || tags.is_some() {
        let _ = update_node(
            graph,
            id,
            None,
            None,
            None,
            None,
            quellen,
            tags,
            None,
            None,
        );
    } else {
        proof {
            crate::store::model::lemma_position(before.nodes, id@, 0);
            if let Some(i) = before.position(id@) {
                assert(before.nodes.update(i, before.nodes[i]) =~= before.nodes);
            }
            assert(updated(before, id@, q, t) =~= before);
        }
    }
    assert(graph@ == updated(before, id@, q, t));
    let s: String = text::trim(session_id);
    if !s.as_str().is_empty() {
        let _ = set_origin_session(graph, id, &s);
    }
}

fn text_or_default(l: &Json, key: &str, default: &str) -> (r: String)
    ensures
        r@ == link_text(l@, key@, default@),
{
    match l.get_text(key) {
        Some(t) => t,
        None => default.to_owned(),
    }
}

fn link_once(
    base: &KnowledgeGraph,
    graph: &mut KnowledgeGraph,
    new_id: &str,
    edge_id: String,
    l: &Json,
) -> (r: String)
    ensures
        (final(graph)@, r@) == linked_once(base@, old(graph)@, new_id@, edge_id@, l@),
{
    proof {
        reveal_strlit("");
        assert(""@ =~= Seq::empty());
    }
    let ziel: String = text::trim(&text_or_default(l, "ziel", ""));
    if ziel.as_str().is_empty() {
        return "link skipped: missing 'ziel'".to_owned();
    }
    let pol: String = text_or_default(l, "polaritaet", "stuetzt");
    let als: String = text_or_default(l, "als", "parent");
    match resolve_ref(base, &ziel) {
        Err(e) => "link to '".to_owned().concat(&ziel).concat("' failed: ").concat(&e),
        Ok(zid) => {
            let child: bool = text::same(&als, "child");
            let von: &str = if child {
                &zid
            } else {
                new_id
            };
            let zu: &str = if child {
                new_id
            } else {
                &zid
            };
            match insert_edge(graph, edge_id, von, zu, &pol, None) {
                Ok(_) => "linked ".to_owned().concat(von).concat(" -").concat(&pol).concat(
                    "-> ",
                ).concat(zu),
                Err(e) => "link to '".to_owned().concat(&ziel).concat("' failed: ").concat(
                    &e.message(),
                ),
            }
        },
    }
}

/// Adds the links that a payload brings along to a new node. Each gives a line on how it
/// went; one that fails does not keep the others from being added.
pub fn apply_inline_links(
    graph: &mut KnowledgeGraph,
    new_id: &str,
    p: &Json,
    edge_ids: &Vec<String>,
) -> (r: Vec<String>)
    requires
        edge_ids@.len() >= links_field(p@).len(),
    ensures
        (final(graph)@, texts(r@)) == linked_all(
            old(graph)@,
            new_id@,
            texts(edge_ids@),
            links_field(p@),
            links_field(p@).len() as int,
        ),
{
    let ghost start = graph@;
    let mut msgs: Vec<String> = Vec::new();
    assert(texts(msgs@) =~= Seq::empty());
    let items: &Vec<Json> = match p.get("links") {
        Some(Json::Arr(items)) => items,
        _ => return msgs,
    };
    let ghost all = item_views(items@);
    assert(all == links_field(p@));
    let base: KnowledgeGraph = graph.copy();
    let mut i: usize = 0;
    while i < items.len()
        invariant
            all == item_views(items@),
            edge_ids@.len() >= all.len(),
            base@ == start,
            i <= items.len(),
            (graph@, texts(msgs@)) == linked_all(
                start,
                new_id@,
                texts(edge_ids@),
                all,
                i as int,
            ),
        decreases items.len() - i,
    {
        let ghost before = msgs@;
        assert(all[i as int] == items@[i as int]@);
        assert(texts(edge_ids@)[i as int] == edge_ids@[i as int]@);
        let msg: String = link_once(&base, graph, new_id, edge_ids[i].clone(), &items[i]);
        msgs.push(msg);
        assert(texts(msgs@) =~= texts(before).push(msg@));
        i += 1;
    }
    msgs
}

fn record(
    graph: &mut KnowledgeGraph,
    p: &Json,
    numbers: Numbers,
    session_id: &str,
    fresh: Fresh,
) -> (r: Done)
    requires
        fresh@.edge_ids.len() >= links_field(p@).len(),
    ensures
        done_with(final(graph)@, r) == record_done(
            old(graph)@,
            p@,
            numbers,
            session_id@,
            fresh@,
        ),
{
    let ghost g = graph@;
    let ghost f = fresh@;
    let typ: NodeType = match read_typ(p) {
        Some(t) => t,
        None => return refuse(RECORD_TYP.to_owned()),
    };
    let inhalt: String = match p.get_text("inhalt") {
        Some(t) => t,
        None => return refuse("record: missing 'inhalt'".to_owned()),
    };
    let why: String = match nonempty(p, "begruendung") {
        Some(t) => t,
        None => return refuse(RECORD_WHY.to_owned()),
    };
    if let Some(dup) = find_duplicate(graph, typ, &inhalt) {
        match graph.find_node(&dup) {
            Some(i) => {
                let node: Node = graph.nodes[i].copy();
                assert(graph@.nodes[i as int] == graph.nodes@[i as int]@);
                let hints: Vec<String> = hygiene_hints(graph);
                return read(Reply::Duplicate { node, duplicate_of: dup, hints });
            },
            None => {
                proof {
                    let k = duplicate(g.nodes, typ, inhalt@, 0)->0;
                    assert(g.nodes[k].id == dup@);
                    assert(false);
                }
            },
        }
    }
    let id: String = fresh.node_id.clone();
    let _ = insert_node(
        graph,
        fresh.node_id,
        fresh.datum,
        typ,
        inhalt,
        &why,
        numbers.basis_score,
        "session",
        None,
        None,
    );
    annotate(graph, &id, p, session_id);
    assert(texts(fresh.edge_ids@).len() == fresh.edge_ids@.len());
    let links: Vec<String> = apply_inline_links(graph, &id, p, &fresh.edge_ids);
    wrote(Recorded::Node(id), links)
}

// ---- link, merge, add_fact, update ----

/// What a link between two existing nodes gives.
pub open spec fn link_done(g: GraphView, p: JsonView, numbers: Numbers, f: FreshView) -> DoneView {
    match (text_field(p, "von"@), text_field(p, "zu"@), text_field(p, "polaritaet"@)) {
        (Some(von_ref), Some(zu_ref), Some(pol)) => match resolved(g, von_ref) {
            Err(e) => refusal(g, "link 'von': "@ + e),
            Ok(von) => match resolved(g, zu_ref) {
                Err(e) => refusal(g, "link 'zu': "@ + e),
                Ok(zu) => match edge_refusal(g, von, zu, pol) {
                    Some(e) => refusal(g, e),
                    None => writing(
                        with_edge(g, f.edge_ids[0], von, zu, pol, numbers.gewicht),
                        RecordedView::Edge(
                            new_edge(f.edge_ids[0], von, zu, pol, numbers.gewicht),
                        ),
                        Seq::empty(),
                    ),
                },
            },
        },
        _ => refusal(g, "link: requires 'von', 'zu', 'polaritaet'"@),
    }
}

fn no_texts() -> (r: Vec<String>)
    ensures
        texts(r@) == Seq::<Seq<char>>::empty(),
{
    let v: Vec<String> = Vec::new();
    assert(texts(v@) =~= Seq::empty());
    v
}

fn link(graph: &mut KnowledgeGraph, p: &Json, numbers: Numbers, edge_id: String, Ghost(f): Ghost<
    FreshView,
>) -> (r: Done)
    requires
        f.edge_ids.len() > 0,
        f.edge_ids[0] == edge_id@,
    ensures
        done_with(final(graph)@, r) == link_done(old(graph)@, p@, numbers, f),
{
    let (von_ref, zu_ref, pol) = match (
        p.get_text("von"),
        p.get_text("zu"),
        p.get_text("polaritaet"),
    ) {
        (Some(v), Some(z), Some(pol)) => (v, z, pol),
        _ => return refuse("link: requires 'von', 'zu', 'polaritaet'".to_owned()),
    };
    let von: String = match resolve_ref(graph, &von_ref) {
        Ok(x) => x,
        Err(e) => return refuse("link 'von': ".to_owned().concat(&e)),
    };
    let zu: String = match resolve_ref(graph, &zu_ref) {
        Ok(x) => x,
        Err(e) => return refuse("link 'zu': ".to_owned().concat(&e)),
    };
    match insert_edge(graph, edge_id, &von, &zu, &pol, numbers.gewicht) {
        Ok(e) => wrote(Recorded::Edge(e), no_texts()),
        Err(e) => refuse(e.message()),
    }
}

/// What a merge of two nodes gives.
pub open spec fn merge_done(g: GraphView, p: JsonView) -> DoneView {
    match (nonempty_text(p, "from"@), nonempty_text(p, "into"@)) {
        (Some(from_ref), Some(into_ref)) => match resolved(g, from_ref) {
            Err(e) => refusal(g, "merge 'from': "@ + e),
            Ok(from) => match resolved(g, into_ref) {
                Err(e) => refusal(g, "merge 'into': "@ + e),
                Ok(into) => match merge_refusal(g, from, into) {
                    Some(e) => refusal(g, e),
                    None => writing(merged(g, from, into), RecordedView::Node(into), Seq::empty()),
                },
            },
        },
        _ => refusal(g, "merge: requires 'from' and 'into'"@),
    }
}

fn merge(graph: &mut KnowledgeGraph, p: &Json) -> (r: Done)
    ensures
        done_with(final(graph)@, r) == merge_done(old(graph)@, p@),
{
    let (from_ref, into_ref) = match (nonempty(p, "from"), nonempty(p, "into")) {
        (Some(f), Some(i)) => (f, i),
        _ => return refuse("merge: requires 'from' and 'into'".to_owned()),
    };
    let from: String = match resolve_ref(graph, &from_ref) {
        Ok(x) => x,
        Err(e) => return refuse("merge 'from': ".to_owned().concat(&e)),
    };
    let into: String = match resolve_ref(graph, &into_ref) {
        Ok(x) => x,
        Err(e) => return refuse("merge 'into': ".to_owned().concat(&e)),
    };
    match merge_nodes(graph, &from, &into) {
        Ok(_) => wrote(Recorded::Node(into), no_texts()),
        Err(e) => refuse(e.message()),
    }
}

/// What a fact gives.
pub open spec fn fact_done(
    g: GraphView,
    p: JsonView,
    numbers: Numbers,
    session: Seq<char>,
    f: FreshView,
) -> DoneView {
    match (text_field(p, "frage"@), text_field(p, "wert"@), text_field(p, "inhalt"@)) {
        (Some(frage), Some(wert), Some(inhalt)) => match nonempty_text(p, "begruendung"@) {
            None => refusal(
                g,
                "add_fact: missing 'begruendung' — the source / where this fact comes from"@,
            ),
            Some(why) => writing(
                annotated(
                    with_fact(
                        g,
                        f.frage_id,
                        f.node_id,
                        f.datum,
                        frage,
                        wert,
                        inhalt,
                        why,
                        numbers.basis_score,
                        "session"@,
                    ),
                    f.node_id,
                    p,
                    session,
                ),
                RecordedView::Bare(f.node_id),
                Seq::empty(),
            ),
        },
        _ => refusal(g, "add_fact: requires 'frage', 'wert', 'inhalt'"@),
    }
}

fn add_fact(
    graph: &mut KnowledgeGraph,
    p: &Json,
    numbers: Numbers,
    session_id: &str,
    fresh: Fresh,
) -> (r: Done)
    ensures
        done_with(final(graph)@, r) == fact_done(old(graph)@, p@, numbers, session_id@, fresh@),
{
    let (frage, wert, inhalt) = match (
        p.get_text("frage"),
        p.get_text("wert"),
        p.get_text("inhalt"),
    ) {
        (Some(f), Some(w), Some(i)) => (f, w, i),
        _ => return refuse("add_fact: requires 'frage', 'wert', 'inhalt'".to_owned()),
    };
    let why: String = match nonempty(p, "begruendung") {
        Some(t) => t,
        None => return refuse(
            "add_fact: missing 'begruendung' — the source / where this fact comes from".to_owned(),
        ),
    };
    let id: String = fresh.node_id.clone();
    let _ = insert_fact(
        graph,
        fresh.frage_id,
        fresh.node_id,
        fresh.datum,
        &frage,
        &wert,
        inhalt,
        &why,
        numbers.basis_score,
        "session",
    );
    annotate(graph, &id, p, session_id);
    wrote(Recorded::Bare(id), no_texts())
}

/// What a correction gives. Sources that are given take the place of the old ones, also
/// where none is given; the old ones stay only where nothing is said of them.
pub open spec fn update_done(g: GraphView, p: JsonView, numbers: Numbers) -> DoneView {
    match nonempty_text(p, "id"@) {
        None => refusal(g, "update: requires 'id' (from query_knowledge)"@),
        Some(id) => if text_field(p, "typ"@) is Some && typ_field(p) is None {
            refusal(g, "update: invalid typ '"@ + text_field(p, "typ"@)->0 + "'"@)
        } else {
            match g.position(id) {
                None => refusal(g, "node not found: "@ + id),
                Some(i) => writing(
                    with_node_at(
                        g,
                        i,
                        patched(
                            g.nodes[i],
                            text_field(p, "inhalt"@),
                            nonempty_text(p, "begruendung"@),
                            typ_field(p),
                            numbers.basis_score,
                            given_array(p, "quellen"@),
                            text_array(p, "tags"@, true),
                            flag_field(p, "ueberholt"@),
                            flag_field(p, "erledigt"@),
                        ),
                    ),
                    RecordedView::Node(id),
                    Seq::empty(),
                ),
            }
        },
    }
}

fn update(graph: &mut KnowledgeGraph, p: &Json, numbers: Numbers) -> (r: Done)
    ensures
        done_with(final(graph)@, r) == update_done(old(graph)@, p@, numbers),
{
    let id: String = match nonempty(p, "id") {
        Some(id) => id,
        None => return refuse("update: requires 'id' (from query_knowledge)".to_owned()),
    };
    let typ: Option<NodeType> = match p.get_text("typ") {
        Some(t) => match NodeType::parse(&t) {
            Some(typ) => Some(typ),
            None => return refuse("update: invalid typ '".to_owned().concat(&t).concat("'")),
        },
        None => None,
    };
    let quellen: Option<Vec<String>> = read_given_array(p, "quellen");
    let tags: Option<Vec<String>> = parse_str_array(p, "tags");
    match update_node(
        graph,
        &id,
        p.get_text("inhalt"),
        nonempty(p, "begruendung"),
        typ,
        numbers.basis_score,
        quellen,
        tags,
        p.get_flag("ueberholt"),
        p.get_flag("erledigt"),
    ) {
        Ok(_) => wrote(Recorded::Node(id), no_texts()),
        Err(e) => refuse(e.message()),
    }
}

// ---- current state ----

/// A question with its leading value.
pub open spec fn question_of(nodes: Seq<NodeView>, f: FrageView) -> QuestionView {
    QuestionView {
        id: f.id,
        frage: f.inhalt,
        werte: f.werte,
        fuehrend: leading_value(nodes, f.id),
    }
}

/// The questions among the first `n` that are answered, or (`answered` unset) that are
/// not.
pub open spec fn questions(g: GraphView, answered: bool, n: int) -> Seq<QuestionView>
    decreases n,
{
    if n <= 0 {
        Seq::empty()
    } else {
        let before = questions(g, answered, n - 1);
        if is_answered(g.nodes, g.fragen[n - 1].id) == answered {
            before.push(question_of(g.nodes, g.fragen[n - 1]))
        } else {
            before
        }
    }
}

/// What holds now.
pub open spec fn state_reply(g: GraphView) -> ReplyView {
    ReplyView::State {
        decisions: active_decisions(g).map_values(
            |n: NodeView| DecisionView { id: n.id, inhalt: n.inhalt, tags: n.tags },
        ),
        open: questions(g, false, g.fragen.len() as int),
        answered: questions(g, true, g.fragen.len() as int),
    }
}

fn current_state(graph: &KnowledgeGraph) -> (r: Done)
    ensures
        done_with(graph@, r) == reading(graph@, state_reply(graph@)),
{
    let ghost g = graph@;
    let active: Vec<Node> = find_active_decisions(graph);
    let mut decisions: Vec<Decision> = Vec::new();
    let mut i: usize = 0;
    while i < active.len()
        invariant
            i <= active.len(),
            decisions.len() == i,
            forall|k: int|
                0 <= k < i ==> (#[trigger] decisions@[k])@ == (DecisionView {
                    id: active@[k]@.id,
                    inhalt: active@[k]@.inhalt,
                    tags: active@[k]@.tags,
                }),
        decreases active.len() - i,
    {
        let n: &Node = &active[i];
        decisions.push(
            Decision {
                id: n.id.clone(),
                inhalt: n.inhalt.clone(),
                tags: text::clone_texts(&n.tags),
            },
        );
        i += 1;
    }
    assert(decision_views(decisions@) =~= active_decisions(g).map_values(
        |n: NodeView| DecisionView { id: n.id, inhalt: n.inhalt, tags: n.tags },
    )) by {
        assert(node_views(active@) == active_decisions(g));
        assert forall|k: int| 0 <= k < active@.len() implies #[trigger] active_decisions(g)[k]
            == active@[k]@ by {
            assert(node_views(active@)[k] == active@[k]@);
        }
        assert(active_decisions(g).len() == active@.len());
        assert forall|k: int| 0 <= k < decisions@.len() implies #[trigger] decision_views(
            decisions@,
        )[k] == (DecisionView {
            id: active_decisions(g)[k].id,
            inhalt: active_decisions(g)[k].inhalt,
            tags: active_decisions(g)[k].tags,
        }) by {
            assert(decisions@[k]@.id == active@[k]@.id);
        }
    }
    let mut open: Vec<Question> = Vec::new();
    let mut answered: Vec<Question> = Vec::new();
    let mut i: usize = 0;
    assert(question_views(open@) =~= questions(g, false, 0));
    assert(question_views(answered@) =~= questions(g, true, 0));
    while i < graph.fragen.len()
        invariant
            g == graph@,
            i <= graph.fragen.len(),
            question_views(open@) == questions(g, false, i as int),
            question_views(answered@) == questions(g, true, i as int),
        decreases graph.fragen.len() - i,
    {
        let fr: &Frage = &graph.fragen[i];
        assert(g.fragen[i as int] == fr@);
        let (fuehrend, done) = judge_question(graph, &fr.id);
        let q = Question {
            id: fr.id.clone(),
            frage: fr.inhalt.clone(),
            werte: text::clone_texts(&fr.werte),
            fuehrend,
        };
        assert(q@ =~= question_of(g.nodes, fr@));
        if done {
            let ghost before = answered@;
            answered.push(q);
            assert(question_views(answered@) =~= question_views(before).push(q@));
        } else {
            let ghost before = open@;
            open.push(q);
            assert(question_views(open@) =~= question_views(before).push(q@));
        }
        i += 1;
    }
    read(Reply::State { decisions, open, answered })
}

// ---- all requests ----

/// What working a request gives. A disabled project answers nothing but a ping.
pub open spec fn dispatched(
    r: RequestView,
    enabled: bool,
    numbers: Numbers,
    g: GraphView,
    documents: Seq<QuelleView>,
    f: FreshView,
) -> DoneView {
    let p = r.payload;
    if r.op == "ping"@ {
        reading(g, ReplyView::Pong { project: r.project_dir })
    } else if !enabled {
        refusal(g, "knowledge is disabled for this project"@)
    } else if r.op == "query"@ {
        reading(g, overview(filtered(g, filter_of(p)), query_notes(g, filter_of(p))))
    } else if r.op == "get"@ {
        get_done(g, p)
    } else if r.op == "record"@ {
        record_done(g, p, numbers, r.session_id, f)
    } else if r.op == "link"@ {
        link_done(g, p, numbers, f)
    } else if r.op == "merge"@ {
        merge_done(g, p)
    } else if r.op == "add_fact"@ {
        fact_done(g, p, numbers, r.session_id, f)
    } else if r.op == "list_documents"@ {
        DoneView {
            graph: GraphView { quellen: documents, ..g },
            answer: AnswerView::Ready(ReplyView::Documents { documents }),
            changed: false,
            save: true,
        }
    } else if r.op == "update"@ {
        update_done(g, p, numbers)
    } else if r.op == "current_state"@ {
        reading(g, state_reply(g))
    } else {
        refusal(g, "unknown op: "@ + r.op)
    }
}

/// Works a request on a scored graph, with given fresh ids and a given date.
pub fn dispatch_with(
    req: &IpcRequest,
    enabled: bool,
    numbers: Numbers,
    graph: &mut KnowledgeGraph,
    documents: Vec<Quelle>,
    fresh: Fresh,
) -> (r: Done)
    requires
        fresh@.edge_ids.len() > 0,
        fresh@.edge_ids.len() >= links_field(req.payload@).len(),
    ensures
        done_with(final(graph)@, r) == dispatched(
            req@,
            enabled,
            numbers,
            old(graph)@,
            quelle_views(documents@),
            fresh@,
        ),
{
    let op: &str = &req.op;
    let p: &Json = &req.payload;
    if text::same(op, "ping") {
        read(Reply::Pong { project: req.project_dir.clone() })
    } else if !enabled {
        refuse("knowledge is disabled for this project".to_owned())
    } else if text::same(op, "query") {
        query(graph, p)
    } else if text::same(op, "get") {
        get(graph, p)
    } else if text::same(op, "record") {
        record(graph, p, numbers, &req.session_id, fresh)
    } else if text::same(op, "link") {
        let ghost f = fresh@;
        assert(f.edge_ids[0] == fresh.edge_ids@[0]@);
        link(graph, p, numbers, fresh.edge_ids[0].clone(), Ghost(f))
    } else if text::same(op, "merge") {
        merge(graph, p)
    } else if text::same(op, "add_fact") {
        add_fact(graph, p, numbers, &req.session_id, fresh)
    } else if text::same(op, "list_documents") {
        let shown: Vec<Quelle> = copy_quellen(&documents);
        set_quellen(graph, documents);
        Done {
            answer: Answer::Ready(Reply::Documents { documents: shown }),
            changed: false,
            save: true,
        }
    } else if text::same(op, "update") {
        update(graph, p, numbers)
    } else if text::same(op, "current_state") {
        current_state(graph)
    } else {
        refuse("unknown op: ".to_owned().concat(op))
    }
}

/// The ids are fresh, and enough of them for the request.
pub open spec fn is_fresh(f: FreshView, p: JsonView) -> bool {
    &&& is_uuid(f.node_id)
    &&& is_uuid(f.frage_id)
    &&& is_utc_date(f.datum)
    &&& f.edge_ids.len() > 0
    &&& f.edge_ids.len() >= links_field(p).len()
    &&& forall|i: int| 0 <= i < f.edge_ids.len() ==> is_uuid(#[trigger] f.edge_ids[i])
}

/// Fresh ids and the date of now for a request.
pub fn make_fresh(p: &Json) -> (r: Fresh)
    ensures
        is_fresh(r@, p@),
{
    let n: usize = match p.get("links") {
        Some(Json::Arr(items)) => {
            assert(item_views(items@).len() == items@.len());
            if items.len() > 0 {
                items.len()
            } else {
                1
            }
        },
        _ => 1,
    };
    let mut edge_ids: Vec<String> = Vec::new();
    let mut i: usize = 0;
    while i < n
        invariant
            i <= n,
            edge_ids.len() == i,
            forall|k: int| 0 <= k < i ==> is_uuid((#[trigger] edge_ids@[k])@),
        decreases n - i,
    {
        edge_ids.push(fresh_id());
        i += 1;
    }
    let r = Fresh { node_id: fresh_id(), frage_id: fresh_id(), datum: now(), edge_ids };
    assert forall|k: int| 0 <= k < r@.edge_ids.len() implies is_uuid(
        #[trigger] r@.edge_ids[k],
    ) by {
        assert(is_uuid(r.edge_ids@[k]@));
    }
    r
}

/// Works a request on a scored graph. New things get fresh ids and the date of now.
pub fn dispatch_store(
    req: &IpcRequest,
    enabled: bool,
    numbers: Numbers,
    graph: &mut KnowledgeGraph,
    documents: Vec<Quelle>,
) -> (r: Done)
    ensures
        exists|f: FreshView|
            #[trigger] is_fresh(f, req.payload@) && done_with(final(graph)@, r) == dispatched(
                req@,
                enabled,
                numbers,
                old(graph)@,
                quelle_views(documents@),
                f,
            ),
{
    let fresh: Fresh = make_fresh(&req.payload);
    assert(is_fresh(fresh@, req.payload@));
    dispatch_with(req, enabled, numbers, graph, documents, fresh)
}

/// How a recorded thing is shown.
pub open spec fn shown(g: GraphView, what: RecordedView) -> Option<EntityView> {
    match what {
        RecordedView::Edge(e) => Some(EntityView::Edge(e)),
        RecordedView::Node(id) => match g.position(id) {
            Some(i) => Some(EntityView::Node(g.nodes[i])),
            None => None,
        },
        RecordedView::Bare(id) => match g.position(id) {
            Some(i) => Some(
                EntityView::Node(
                    NodeView {
                        quelle_ids: Seq::empty(),
                        tags: Seq::empty(),
                        session_id: None,
                        ..g.nodes[i]
                    },
                ),
            ),
            None => None,
        },
    }
}

/// The reply to a request, given the graph as it has become.
pub open spec fn response(g: GraphView, a: AnswerView) -> ResponseView {
    match a {
        AnswerView::Refused(t) => rejected(t),
        AnswerView::Ready(r) => accepted(r),
        AnswerView::Recorded { what, links } => match shown(g, what) {
            Some(entity) => accepted(ReplyView::Recorded { entity, hints: hints(g), links }),
            None => accepted(ReplyView::Nothing),
        },
    }
}

fn show(graph: &KnowledgeGraph, what: Recorded) -> (r: Option<Entity>)
    ensures
        match r {
            Some(e) => shown(graph@, what@) == Some(e@),
            None => shown(graph@, what@) is None,
        },
{
    match what {
        Recorded::Edge(e) => Some(Entity::Edge(e)),
        Recorded::Node(id) => match graph.find_node(&id) {
            Some(i) => {
                assert(graph@.nodes[i as int] == graph.nodes@[i as int]@);
                Some(Entity::Node(graph.nodes[i].copy()))
            },
            None => None,
        },
        Recorded::Bare(id) => match graph.find_node(&id) {
            Some(i) => {
                assert(graph@.nodes[i as int] == graph.nodes@[i as int]@);
                let mut n: Node = graph.nodes[i].copy();
                n.quelle_ids = no_texts();
                n.tags = no_texts();
                n.session_id = None;
                Some(Entity::Node(n))
            },
            None => None,
        },
    }
}

/// Makes the reply to a request. The graph is the one that the request has left, scored
/// again.
pub fn finish(graph: &KnowledgeGraph, answer: Answer) -> (r: IpcResponse)
    ensures
        r@ == response(graph@, answer@),
{
    match answer {
        Answer::Refused(t) => IpcResponse::err(t),
        Answer::Ready(reply) => IpcResponse::ok(reply),
        Answer::Recorded { what, links } => match show(graph, what) {
            Some(entity) => {
                let hints: Vec<String> = hygiene_hints(graph);
                IpcResponse::ok(Reply::Recorded { entity, hints, links })
            },
            None => IpcResponse::ok(Reply::Nothing),
        },
    }
}

} // verus!

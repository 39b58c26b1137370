//! Requests to the store and the replies to them.

use vstd::prelude::*;
use vstd::string::StringExecFns;

use crate::json::{Json, JsonView};
use crate::score::Score;
use crate::store::model::{
    frage_views, quelle_views, Edge, EdgeView, Frage, FrageView, GraphView, KnowledgeGraph, Node,
    NodeType, NodeView, Quelle, QuelleView,
};
use crate::text;
use crate::text::{opt_text, texts};

verus! {

/// A request to the store.
#[derive(Debug)]
pub struct IpcRequest {
    /// Must be the one that the daemon handed out.
    pub token: String,
    pub project_dir: String,
    pub op: String,
    pub payload: Json,
    /// The session that asks; stamped on what it records.
    pub session_id: String,
}

#[verifier::ext_equal]
pub struct RequestView {
    pub token: Seq<char>,
    pub project_dir: Seq<char>,
    pub op: Seq<char>,
    pub payload: JsonView,
    pub session_id: Seq<char>,
}

impl View for IpcRequest {
    type V = RequestView;

    open spec fn view(&self) -> RequestView {
        RequestView {
            token: self.token@,
            project_dir: self.project_dir@,
            op: self.op@,
            payload: self.payload@,
            session_id: self.session_id@,
        }
    }
}

/// A node in the overview.
#[derive(Debug, Clone)]
pub struct CompactNode {
    pub id: String,
    pub typ: NodeType,
    pub status: String,
    pub score: Score,
    pub titel: String,
    pub tags: Vec<String>,
    pub wert: Option<String>,
}

#[verifier::ext_equal]
pub struct CompactNodeView {
    pub id: Seq<char>,
    pub typ: NodeType,
    pub status: Seq<char>,
    pub score: Score,
    pub titel: Seq<char>,
    pub tags: Seq<Seq<char>>,
    pub wert: Option<Seq<char>>,
}

impl View for CompactNode {
    type V = CompactNodeView;

    open spec fn view(&self) -> CompactNodeView {
        CompactNodeView {
            id: self.id@,
            typ: self.typ,
            status: self.status@,
            score: self.score,
            titel: self.titel@,
            tags: texts(self.tags@),
            wert: opt_text(self.wert),
        }
    }
}

/// An edge in the overview.
#[derive(Debug, Clone)]
pub struct CompactEdge {
    pub von: String,
    pub zu: String,
    pub polaritaet: String,
}

#[verifier::ext_equal]
pub struct CompactEdgeView {
    pub von: Seq<char>,
    pub zu: Seq<char>,
    pub polaritaet: Seq<char>,
}

impl View for CompactEdge {
    type V = CompactEdgeView;

    open spec fn view(&self) -> CompactEdgeView {
        CompactEdgeView { von: self.von@, zu: self.zu@, polaritaet: self.polaritaet@ }
    }
}

/// A decision that holds.
#[derive(Debug, Clone)]
pub struct Decision {
    pub id: String,
    pub inhalt: String,
    pub tags: Vec<String>,
}

#[verifier::ext_equal]
pub struct DecisionView {
    pub id: Seq<char>,
    pub inhalt: Seq<char>,
    pub tags: Seq<Seq<char>>,
}

impl View for Decision {
    type V = DecisionView;

    open spec fn view(&self) -> DecisionView {
        DecisionView { id: self.id@, inhalt: self.inhalt@, tags: texts(self.tags@) }
    }
}

/// A question with its leading value.
#[derive(Debug, Clone)]
pub struct Question {
    pub id: String,
    pub frage: String,
    pub werte: Vec<String>,
    pub fuehrend: Option<String>,
}

#[verifier::ext_equal]
pub struct QuestionView {
    pub id: Seq<char>,
    pub frage: Seq<char>,
    pub werte: Seq<Seq<char>>,
    pub fuehrend: Option<Seq<char>>,
}

impl View for Question {
    type V = QuestionView;

    open spec fn view(&self) -> QuestionView {
        QuestionView {
            id: self.id@,
            frage: self.frage@,
            werte: texts(self.werte@),
            fuehrend: opt_text(self.fuehrend),
        }
    }
}

/// What was recorded.
#[derive(Debug)]
pub enum Entity {
    Node(Node),
    Edge(Edge),
}

#[verifier::ext_equal]
pub enum EntityView {
    Node(NodeView),
    Edge(EdgeView),
}

impl View for Entity {
    type V = EntityView;

    open spec fn view(&self) -> EntityView {
        match *self {
            Entity::Node(n) => EntityView::Node(n@),
            Entity::Edge(e) => EntityView::Edge(e@),
        }
    }
}

/// What a reply holds.
#[derive(Debug)]
pub enum Reply {
    Nothing,
    Pong { project: String },
    Overview {
        nodes: Vec<CompactNode>,
        edges: Vec<CompactEdge>,
        fragen: Vec<Frage>,
        hints: Vec<String>,
    },
    Subgraph { graph: KnowledgeGraph },
    Recorded { entity: Entity, hints: Vec<String>, links: Vec<String> },
    Duplicate { node: Node, duplicate_of: String, hints: Vec<String> },
    Documents { documents: Vec<Quelle> },
    State { decisions: Vec<Decision>, open: Vec<Question>, answered: Vec<Question> },
    Health { since: u64 },
    Hint { hint: String },
    Accepted { skipped: bool },
    NotSubscribed,
}

#[verifier::ext_equal]
pub enum ReplyView {
    Nothing,
    Pong { project: Seq<char> },
    Overview {
        nodes: Seq<CompactNodeView>,
        edges: Seq<CompactEdgeView>,
        fragen: Seq<FrageView>,
        hints: Seq<Seq<char>>,
    },
    Subgraph { graph: GraphView },
    Recorded { entity: EntityView, hints: Seq<Seq<char>>, links: Seq<Seq<char>> },
    Duplicate { node: NodeView, duplicate_of: Seq<char>, hints: Seq<Seq<char>> },
    Documents { documents: Seq<QuelleView> },
    State { decisions: Seq<DecisionView>, open: Seq<QuestionView>, answered: Seq<QuestionView> },
    Health { since: u64 },
    Hint { hint: Seq<char> },
    Accepted { skipped: bool },
    NotSubscribed,
}

pub open spec fn compact_views(v: Seq<CompactNode>) -> Seq<CompactNodeView> {
    v.map_values(|n: CompactNode| n@)
}

pub open spec fn compact_edge_views(v: Seq<CompactEdge>) -> Seq<CompactEdgeView> {
    v.map_values(|e: CompactEdge| e@)
}

pub open spec fn decision_views(v: Seq<Decision>) -> Seq<DecisionView> {
    v.map_values(|d: Decision| d@)
}

pub open spec fn question_views(v: Seq<Question>) -> Seq<QuestionView> {
    v.map_values(|q: Question| q@)
}

impl View for Reply {
    type V = ReplyView;

    open spec fn view(&self) -> ReplyView {
        match *self {
            Reply::Nothing => ReplyView::Nothing,
            Reply::Pong { project } => ReplyView::Pong { project: project@ },
            Reply::Overview { nodes, edges, fragen, hints } => ReplyView::Overview {
                nodes: compact_views(nodes@),
                edges: compact_edge_views(edges@),
                fragen: frage_views(fragen@),
                hints: texts(hints@),
            },
            Reply::Subgraph { graph } => ReplyView::Subgraph { graph: graph@ },
            Reply::Recorded { entity, hints, links } => ReplyView::Recorded {
                entity: entity@,
                hints: texts(hints@),
                links: texts(links@),
            },
            Reply::Duplicate { node, duplicate_of, hints } => ReplyView::Duplicate {
                node: node@,
                duplicate_of: duplicate_of@,
                hints: texts(hints@),
            },
            Reply::Documents { documents } => ReplyView::Documents {
                documents: quelle_views(documents@),
            },
            Reply::State { decisions, open, answered } => ReplyView::State {
                decisions: decision_views(decisions@),
                open: question_views(open@),
                answered: question_views(answered@),
            },
            Reply::Health { since } => ReplyView::Health { since },
            Reply::Hint { hint } => ReplyView::Hint { hint: hint@ },
            Reply::Accepted { skipped } => ReplyView::Accepted { skipped },
            Reply::NotSubscribed => ReplyView::NotSubscribed,
        }
    }
}

/// The reply to a request.
#[derive(Debug)]
pub struct IpcResponse {
    pub ok: bool,
    pub data: Reply,
    pub error: Option<String>,
}

#[verifier::ext_equal]
pub struct ResponseView {
    pub ok: bool,
    pub data: ReplyView,
    pub error: Option<Seq<char>>,
}

impl View for IpcResponse {
    type V = ResponseView;

    open spec fn view(&self) -> ResponseView {
        ResponseView { ok: self.ok, data: self.data@, error: opt_text(self.error) }
    }
}

/// A reply that brings something.
pub open spec fn accepted(data: ReplyView) -> ResponseView {
    ResponseView { ok: true, data, error: None }
}

/// A refusal.
pub open spec fn rejected(text: Seq<char>) -> ResponseView {
    ResponseView { ok: false, data: ReplyView::Nothing, error: Some(text) }
}

impl IpcResponse {
    /// A reply that brings something.
    pub fn ok(data: Reply) -> (r: IpcResponse)
        ensures
            r@ == accepted(data@),
    {
        IpcResponse { ok: true, data, error: None }
    }

    /// A refusal.
    pub fn err(msg: String) -> (r: IpcResponse)
        ensures
            r@ == rejected(msg@),
    {
        IpcResponse { ok: false, data: Reply::Nothing, error: Some(msg) }
    }
}

/// What becomes of a request line: it is handled, or answered right away.
#[derive(Debug)]
pub enum Admission {
    Handle(IpcRequest),
    Answer(IpcResponse),
}

/// Admits a request that shows the expected token. Any other is unauthorized, and a line
/// that could not be read is a bad request.
pub fn authenticate(line: Result<IpcRequest, String>, expected_token: &str) -> (r: Admission)
    ensures
        match line {
            Ok(req) => if req.token@ == expected_token@ {
                r matches Admission::Handle(q) && q@ == req@
            } else {
                r matches Admission::Answer(a) && a@ == rejected("unauthorized"@)
            },
            Err(e) => r matches Admission::Answer(a) && a@ == rejected("bad request: "@ + e@),
        },
{
    match line {
        Ok(req) => if text::same(&req.token, expected_token) {
            Admission::Handle(req)
        } else {
            Admission::Answer(IpcResponse::err("unauthorized".to_owned()))
        },
        Err(e) => Admission::Answer(IpcResponse::err("bad request: ".to_owned().concat(&e))),
    }
}

} // verus!

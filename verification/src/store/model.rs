//! The knowledge graph as data: nodes, edges, questions and sources.

use vstd::prelude::*;

use crate::score::Score;
use crate::text;
use crate::text::{clone_opt, clone_texts, opt_text, texts};

verus! {

/// What kind of knowledge a node is.
#[derive(Debug, Clone, Copy, PartialEq, Eq, Structural)]
pub enum NodeType {
    Decision,
    Insight,
    Fact,
    Observation,
    Research,
    Hypothesis,
}

/// A piece of knowledge.
#[derive(Debug, Clone)]
pub struct Node {
    pub id: String,
    pub typ: NodeType,
    pub inhalt: String,
    /// Why the node exists: the question it answers, the reasoning behind it, its
    /// purpose or its source, depending on the type.
    pub begruendung: String,
    /// RFC 3339. Never feeds the score.
    pub datum: String,
    pub basis_score: Score,
    /// Computed from the evidence below the node.
    pub score: Score,
    /// Computed: unsupported, supported, disputed or refuted, unless the lifecycle
    /// (active, superseded, done) overrides it.
    pub status: String,
    /// "session" or "manual".
    pub herkunft: String,
    pub frage_id: Option<String>,
    pub wert: Option<String>,
    /// The documents that the node cites.
    pub quelle_ids: Vec<String>,
    /// The session that recorded the node.
    pub session_id: Option<String>,
    /// Topics.
    pub tags: Vec<String>,
    /// Retired without a replacement.
    pub ueberholt: bool,
    /// Carried out, not replaced.
    pub erledigt: bool,
}

/// A link from a dependent node to one that bears on it.
#[derive(Debug, Clone)]
pub struct Edge {
    pub id: String,
    /// The dependent node.
    pub von: String,
    /// The supporting, contradicting or replaced node.
    pub zu: String,
    /// "supports", "contradicts" or "replaces".
    pub polaritaet: String,
    pub gewicht: Score,
}

/// A question that facts answer with values.
#[derive(Debug, Clone)]
pub struct Frage {
    pub id: String,
    pub inhalt: String,
    pub werte: Vec<String>,
}

/// A document that nodes may cite.
#[derive(Debug, Clone, PartialEq)]
pub struct Quelle {
    /// The relative path.
    pub id: String,
    pub pfad: String,
    pub titel: String,
    /// The kind, after the folder.
    pub art: String,
}

/// The knowledge of a project.
#[derive(Debug, Clone)]
pub struct KnowledgeGraph {
    pub nodes: Vec<Node>,
    pub edges: Vec<Edge>,
    pub fragen: Vec<Frage>,
    pub quellen: Vec<Quelle>,
}

#[verifier::ext_equal]
pub struct NodeView {
    pub id: Seq<char>,
    pub typ: NodeType,
    pub inhalt: Seq<char>,
    pub begruendung: Seq<char>,
    pub datum: Seq<char>,
    pub basis_score: Score,
    pub score: Score,
    pub status: Seq<char>,
    pub herkunft: Seq<char>,
    pub frage_id: Option<Seq<char>>,
    pub wert: Option<Seq<char>>,
    pub quelle_ids: Seq<Seq<char>>,
    pub session_id: Option<Seq<char>>,
    pub tags: Seq<Seq<char>>,
    pub ueberholt: bool,
    pub erledigt: bool,
}

#[verifier::ext_equal]
pub struct EdgeView {
    pub id: Seq<char>,
    pub von: Seq<char>,
    pub zu: Seq<char>,
    pub polaritaet: Seq<char>,
    pub gewicht: Score,
}

#[verifier::ext_equal]
pub struct FrageView {
    pub id: Seq<char>,
    pub inhalt: Seq<char>,
    pub werte: Seq<Seq<char>>,
}

#[verifier::ext_equal]
pub struct QuelleView {
    pub id: Seq<char>,
    pub pfad: Seq<char>,
    pub titel: Seq<char>,
    pub art: Seq<char>,
}

#[verifier::ext_equal]
pub struct GraphView {
    pub nodes: Seq<NodeView>,
    pub edges: Seq<EdgeView>,
    pub fragen: Seq<FrageView>,
    pub quellen: Seq<QuelleView>,
}

impl View for Node {
    type V = NodeView;

    open spec fn view(&self) -> NodeView {
        NodeView {
            id: self.id@,
            typ: self.typ,
            inhalt: self.inhalt@,
            begruendung: self.begruendung@,
            datum: self.datum@,
            basis_score: self.basis_score,
            score: self.score,
            status: self.status@,
            herkunft: self.herkunft@,
            frage_id: opt_text(self.frage_id),
            wert: opt_text(self.wert),
            quelle_ids: texts(self.quelle_ids@),
            session_id: opt_text(self.session_id),
            tags: texts(self.tags@),
            ueberholt: self.ueberholt,
            erledigt: self.erledigt,
        }
    }
}

impl View for Edge {
    type V = EdgeView;

    open spec fn view(&self) -> EdgeView {
        EdgeView {
            id: self.id@,
            von: self.von@,
            zu: self.zu@,
            polaritaet: self.polaritaet@,
            gewicht: self.gewicht,
        }
    }
}

impl View for Frage {
    type V = FrageView;

    open spec fn view(&self) -> FrageView {
        FrageView { id: self.id@, inhalt: self.inhalt@, werte: texts(self.werte@) }
    }
}

impl View for Quelle {
    type V = QuelleView;

    open spec fn view(&self) -> QuelleView {
        QuelleView { id: self.id@, pfad: self.pfad@, titel: self.titel@, art: self.art@ }
    }
}

pub open spec fn node_views(v: Seq<Node>) -> Seq<NodeView> {
    v.map_values(|n: Node| n@)
}

pub open spec fn edge_views(v: Seq<Edge>) -> Seq<EdgeView> {
    v.map_values(|e: Edge| e@)
}

pub open spec fn frage_views(v: Seq<Frage>) -> Seq<FrageView> {
    v.map_values(|f: Frage| f@)
}

pub open spec fn quelle_views(v: Seq<Quelle>) -> Seq<QuelleView> {
    v.map_values(|q: Quelle| q@)
}

impl View for KnowledgeGraph {
    type V = GraphView;

    open spec fn view(&self) -> GraphView {
        GraphView {
            nodes: node_views(self.nodes@),
            edges: edge_views(self.edges@),
            fragen: frage_views(self.fragen@),
            quellen: quelle_views(self.quellen@),
        }
    }
}

impl GraphView {
    /// The position of the first node with an id.
    pub open spec fn position(self, id: Seq<char>) -> Option<int> {
        position_from(self.nodes, id, 0)
    }

    /// Some node has the id.
    pub open spec fn has_node(self, id: Seq<char>) -> bool {
        exists|i: int| 0 <= i < self.nodes.len() && (#[trigger] self.nodes[i]).id == id
    }
}

/// The position of the first node with an id, from `from` on.
pub open spec fn position_from(nodes: Seq<NodeView>, id: Seq<char>, from: int) -> Option<int>
    decreases nodes.len() - from,
{
    if from < 0 || from >= nodes.len() {
        None
    } else if nodes[from].id == id {
        Some(from)
    } else {
        position_from(nodes, id, from + 1)
    }
}

/// The first position is a position, and there is one exactly where a node has the id.
pub proof fn lemma_position(nodes: Seq<NodeView>, id: Seq<char>, from: int)
    requires
        0 <= from,
    ensures
        match position_from(nodes, id, from) {
            Some(i) => from <= i < nodes.len() && nodes[i].id == id && forall|k: int|
                from <= k < i ==> (#[trigger] nodes[k]).id != id,
            None => forall|k: int| from <= k < nodes.len() ==> (#[trigger] nodes[k]).id != id,
        },
    decreases nodes.len() - from,
{
    if from < nodes.len() && nodes[from].id != id {
        lemma_position(nodes, id, from + 1);
    }
}

impl NodeType {
    /// The number that the type starts from: facts 0.95, observations 0.9, research
    /// 0.7, hypotheses 0.3, and 0.5 for what is aggregated from below.
    pub open spec fn basis(self) -> Score {
        match self {
            NodeType::Fact => Score { bits: 0x3fee_6666_6666_6666 },
            NodeType::Observation => Score { bits: 0x3fec_cccc_cccc_cccd },
            NodeType::Research => Score { bits: 0x3fe6_6666_6666_6666 },
            NodeType::Hypothesis => Score { bits: 0x3fd3_3333_3333_3333 },
            NodeType::Insight => Score { bits: 0x3fe0_0000_0000_0000 },
            NodeType::Decision => Score { bits: 0x3fe0_0000_0000_0000 },
        }
    }

    /// The score that a node of the type starts from where none is given.
    pub fn default_basis_score(self) -> (r: Score)
        ensures
            r == self.basis(),
    {
        match self {
            NodeType::Fact => Score { bits: 0x3fee_6666_6666_6666 },
            NodeType::Observation => Score { bits: 0x3fec_cccc_cccc_cccd },
            NodeType::Research => Score { bits: 0x3fe6_6666_6666_6666 },
            NodeType::Hypothesis => Score { bits: 0x3fd3_3333_3333_3333 },
            NodeType::Insight => Score { bits: 0x3fe0_0000_0000_0000 },
            NodeType::Decision => Score { bits: 0x3fe0_0000_0000_0000 },
        }
    }

    /// The code of the type.
    pub open spec fn code(self) -> Seq<char> {
        match self {
            NodeType::Decision => "decision"@,
            NodeType::Insight => "insight"@,
            NodeType::Fact => "fact"@,
            NodeType::Observation => "observation"@,
            NodeType::Research => "research"@,
            NodeType::Hypothesis => "hypothesis"@,
        }
    }

    /// The code of the type, as it is written.
    pub fn as_code(self) -> (r: &'static str)
        ensures
            r@ == self.code(),
    {
        match self {
            NodeType::Decision => "decision",
            NodeType::Insight => "insight",
            NodeType::Fact => "fact",
            NodeType::Observation => "observation",
            NodeType::Research => "research",
            NodeType::Hypothesis => "hypothesis",
        }
    }

    /// The type that a lower-case code names, in English or in German.
    pub open spec fn of_code(code: Seq<char>) -> Option<NodeType> {
        if code == "decision"@ || code == "entscheidung"@ {
            Some(NodeType::Decision)
        } else if code == "insight"@ || code == "erkenntnis"@ {
            Some(NodeType::Insight)
        } else if code == "fact"@ || code == "fakt"@ {
            Some(NodeType::Fact)
        } else if code == "observation"@ || code == "beobachtung"@ {
            Some(NodeType::Observation)
        } else if code == "research"@ || code == "recherche"@ {
            Some(NodeType::Research)
        } else if code == "hypothesis"@ || code == "vermutung"@ {
            Some(NodeType::Hypothesis)
        } else {
            None
        }
    }

    /// Reads a lower-case code.
    pub fn from_code(code: &str) -> (r: Option<NodeType>)
        ensures
            r == NodeType::of_code(code@),
    {
        if text::same(code, "decision") || text::same(code, "entscheidung") {
            Some(NodeType::Decision)
        } else if text::same(code, "insight") || text::same(code, "erkenntnis") {
            Some(NodeType::Insight)
        } else if text::same(code, "fact") || text::same(code, "fakt") {
            Some(NodeType::Fact)
        } else if text::same(code, "observation") || text::same(code, "beobachtung") {
            Some(NodeType::Observation)
        } else if text::same(code, "research") || text::same(code, "recherche") {
            Some(NodeType::Research)
        } else if text::same(code, "hypothesis") || text::same(code, "vermutung") {
            Some(NodeType::Hypothesis)
        } else {
            None
        }
    }

    /// Reads a type: white space around it and capital letters do not matter.
    pub fn parse(s: &str) -> (r: Option<NodeType>)
        ensures
            r == NodeType::of_code(text::lowercase(text::trimmed(s@))),
    {
        let t: String = text::trim(s);
        NodeType::from_code(&text::to_lowercase(&t))
    }
}

impl Node {
    /// A copy of the node.
    pub fn copy(&self) -> (r: Node)
        ensures
            r@ == self@,
    {
        Node {
            id: self.id.clone(),
            typ: self.typ,
            inhalt: self.inhalt.clone(),
            begruendung: self.begruendung.clone(),
            datum: self.datum.clone(),
            basis_score: self.basis_score,
            score: self.score,
            status: self.status.clone(),
            herkunft: self.herkunft.clone(),
            frage_id: clone_opt(&self.frage_id),
            wert: clone_opt(&self.wert),
            quelle_ids: clone_texts(&self.quelle_ids),
            session_id: clone_opt(&self.session_id),
            tags: clone_texts(&self.tags),
            ueberholt: self.ueberholt,
            erledigt: self.erledigt,
        }
    }
}

impl Edge {
    /// A copy of the edge.
    pub fn copy(&self) -> (r: Edge)
        ensures
            r@ == self@,
    {
        Edge {
            id: self.id.clone(),
            von: self.von.clone(),
            zu: self.zu.clone(),
            polaritaet: self.polaritaet.clone(),
            gewicht: self.gewicht,
        }
    }
}

impl Frage {
    /// A copy of the question.
    pub fn copy(&self) -> (r: Frage)
        ensures
            r@ == self@,
    {
        Frage {
            id: self.id.clone(),
            inhalt: self.inhalt.clone(),
            werte: clone_texts(&self.werte),
        }
    }
}

impl Quelle {
    /// A copy of the source.
    pub fn copy(&self) -> (r: Quelle)
        ensures
            r@ == self@,
    {
        Quelle {
            id: self.id.clone(),
            pfad: self.pfad.clone(),
            titel: self.titel.clone(),
            art: self.art.clone(),
        }
    }
}

/// Copies a list of sources.
pub fn copy_quellen(v: &Vec<Quelle>) -> (r: Vec<Quelle>)
    ensures
        quelle_views(r@) == quelle_views(v@),
{
    let mut out: Vec<Quelle> = Vec::new();
    let mut i: usize = 0;
    while i < v.len()
        invariant
            i <= v.len(),
            out.len() == i,
            forall|k: int| 0 <= k < i ==> (#[trigger] out@[k])@ == v@[k]@,
        decreases v.len() - i,
    {
        out.push(v[i].copy());
        i += 1;
    }
    assert(quelle_views(out@) =~= quelle_views(v@));
    out
}

/// The graph that knows nothing.
pub open spec fn empty_graph() -> GraphView {
    GraphView { nodes: Seq::empty(), edges: Seq::empty(), fragen: Seq::empty(), quellen: Seq::empty() }
}

impl Default for KnowledgeGraph {
    fn default() -> (r: KnowledgeGraph)
        ensures
            r@ == empty_graph(),
    {
        let g = KnowledgeGraph {
            nodes: Vec::new(),
            edges: Vec::new(),
            fragen: Vec::new(),
            quellen: Vec::new(),
        };
        assert(g@ =~= empty_graph());
        g
    }
}

impl KnowledgeGraph {
    /// A copy of the graph.
    pub fn copy(&self) -> (r: KnowledgeGraph)
        ensures
            r@ == self@,
    {
        let mut nodes: Vec<Node> = Vec::new();
        let mut i: usize = 0;
        while i < self.nodes.len()
            invariant
                i <= self.nodes.len(),
                nodes.len() == i,
                forall|k: int| 0 <= k < i ==> (#[trigger] nodes@[k])@ == self.nodes@[k]@,
            decreases self.nodes.len() - i,
        {
            nodes.push(self.nodes[i].copy());
            i += 1;
        }
        let mut edges: Vec<Edge> = Vec::new();
        let mut i: usize = 0;
        while i < self.edges.len()
            invariant
                i <= self.edges.len(),
                edges.len() == i,
                forall|k: int| 0 <= k < i ==> (#[trigger] edges@[k])@ == self.edges@[k]@,
            decreases self.edges.len() - i,
        {
            edges.push(self.edges[i].copy());
            i += 1;
        }
        let mut fragen: Vec<Frage> = Vec::new();
        let mut i: usize = 0;
        while i < self.fragen.len()
            invariant
                i <= self.fragen.len(),
                fragen.len() == i,
                forall|k: int| 0 <= k < i ==> (#[trigger] fragen@[k])@ == self.fragen@[k]@,
            decreases self.fragen.len() - i,
        {
            fragen.push(self.fragen[i].copy());
            i += 1;
        }
        let r = KnowledgeGraph { nodes, edges, fragen, quellen: copy_quellen(&self.quellen) };
        assert(r@.nodes =~= self@.nodes);
        assert(r@.edges =~= self@.edges);
        assert(r@.fragen =~= self@.fragen);
        r
    }

    /// Finds the first node with an id.
    pub fn find_node(&self, id: &str) -> (r: Option<usize>)
        ensures
            match r {
                Some(i) => self@.position(id@) == Some(i as int) && i < self.nodes.len()
                    && self.nodes@[i as int].id@ == id@ && self@.has_node(id@),
                None => self@.position(id@) is None && !self@.has_node(id@),
            },
    {
        let mut i: usize = 0;
        while i < self.nodes.len()
            invariant
                i <= self.nodes.len(),
                self@.position(id@) == position_from(self@.nodes, id@, i as int),
                forall|k: int| 0 <= k < i ==> (#[trigger] self@.nodes[k]).id != id@,
            decreases self.nodes.len() - i,
        {
            assert(self@.nodes[i as int].id == self.nodes@[i as int].id@);
            if text::same(&self.nodes[i].id, id) {
                return Some(i);
            }
            i += 1;
        }
        None
    }
}

} // verus!

//! Bottom-up scoring: one wave over the graph, evidence before what rests on it. The
//! library lays out, node by node, what is to be summed up, and turns the outcomes
//! into scores and statuses; the sums themselves are floating-point arithmetic, which
//! the caller does.

use vstd::prelude::*;

use crate::score::Score;
use crate::seqs::lemma_filter_push;
use crate::store::cycles::acyclic;
use crate::store::model::{
    edge_views, node_views, Edge, EdgeView, GraphView, KnowledgeGraph, Node, NodeType, NodeView,
};
use crate::store::order::{
    among, evidence_first, evidence_first_off_cycles, lists_nodes, live_edges, order_nodes,
};
use crate::text;
use crate::text::{opt_text, texts};

verus! {

/// What the evidence on a node comes to.
#[derive(Debug, Clone, Copy, PartialEq, Eq, Structural)]
pub enum Balance {
    /// Next to no evidence.
    Little,
    /// Less than a fifth speaks against.
    Supported,
    /// More than four fifths speak against.
    Refuted,
    /// Anything between.
    Disputed,
}

/// What the arithmetic gives for one node.
#[derive(Debug, Clone, Copy, PartialEq, Eq, Structural)]
pub struct Outcome {
    pub score: Score,
    pub balance: Balance,
}

/// The arithmetic that one node asks for. Evidence is given as pairs of a score and a
/// weight, in the order in which it is to be summed up.
#[derive(Debug, Clone)]
pub enum Task {
    /// The score is given; the balance is that of the evidence.
    Leaf { basis: Score, pro: Vec<(Score, Score)>, con: Vec<(Score, Score)> },
    /// A value of a question: the masses of this value, and those of all values. The
    /// score is the share of the value, the other values speak against it.
    Answer { own: Vec<Score>, all: Vec<Score> },
    /// The score is given and there is nothing to weigh.
    Given { basis: Score },
    /// Score and balance are those of the evidence.
    Inner { pro: Vec<(Score, Score)>, con: Vec<(Score, Score)> },
}

#[verifier::ext_equal]
pub enum TaskView {
    Leaf { basis: Score, pro: Seq<(Score, Score)>, con: Seq<(Score, Score)> },
    Answer { own: Seq<Score>, all: Seq<Score> },
    Given { basis: Score },
    Inner { pro: Seq<(Score, Score)>, con: Seq<(Score, Score)> },
}

impl View for Task {
    type V = TaskView;

    open spec fn view(&self) -> TaskView {
        match *self {
            Task::Leaf { basis, pro, con } => TaskView::Leaf { basis, pro: pro@, con: con@ },
            Task::Answer { own, all } => TaskView::Answer { own: own@, all: all@ },
            Task::Given { basis } => TaskView::Given { basis },
            Task::Inner { pro, con } => TaskView::Inner { pro: pro@, con: con@ },
        }
    }
}

/// A wave in progress: the nodes in order, and the outcomes of the first of them.
#[derive(Debug, Clone)]
pub struct Scoring {
    pub order: Vec<String>,
    pub outcomes: Vec<Outcome>,
}

#[verifier::ext_equal]
pub struct ScoringView {
    pub order: Seq<Seq<char>>,
    pub outcomes: Seq<Outcome>,
}

impl View for Scoring {
    type V = ScoringView;

    open spec fn view(&self) -> ScoringView {
        ScoringView { order: texts(self.order@), outcomes: self.outcomes@ }
    }
}

// ---- what a node asks for ----

/// The edge says that one node takes the place of another. It is no evidence.
pub open spec fn replaces(polaritaet: Seq<char>) -> bool {
    polaritaet == "replaces"@ || polaritaet == "ersetzt"@
}

/// The edge speaks against.
pub open spec fn speaks_against(polaritaet: Seq<char>) -> bool {
    polaritaet == "contradicts"@ || polaritaet == "widerspricht"@
}

/// The outcome of a node, where it is known, looked for from `from` on.
pub open spec fn outcome_of(s: ScoringView, id: Seq<char>, from: int) -> Option<Outcome>
    decreases s.outcomes.len() - from,
{
    if from < 0 || from >= s.outcomes.len() || from >= s.order.len() {
        None
    } else if s.order[from] == id {
        Some(s.outcomes[from])
    } else {
        outcome_of(s, id, from + 1)
    }
}

/// The score of a node so far; what is not known counts nothing.
pub open spec fn score_so_far(s: ScoringView, id: Seq<char>) -> Score {
    match outcome_of(s, id, 0) {
        Some(o) => o.score,
        None => Score { bits: 0 },
    }
}

/// The evidence on a node for or against it, along the first `n` edges: scores and
/// weights.
pub open spec fn evidence(
    edges: Seq<EdgeView>,
    s: ScoringView,
    id: Seq<char>,
    against: bool,
    n: int,
) -> Seq<(Score, Score)>
    decreases n,
{
    if n <= 0 {
        Seq::empty()
    } else {
        let before = evidence(edges, s, id, against, n - 1);
        let e = edges[n - 1];
        if e.von == id && !replaces(e.polaritaet) && speaks_against(e.polaritaet) == against {
            before.push((score_so_far(s, e.zu), e.gewicht))
        } else {
            before
        }
    }
}

/// The last position of a node with an id below `n`.
pub open spec fn last_position(nodes: Seq<NodeView>, id: Seq<char>, n: int) -> Option<int>
    decreases n,
{
    if n <= 0 {
        None
    } else if nodes[n - 1].id == id {
        Some(n - 1)
    } else {
        last_position(nodes, id, n - 1)
    }
}

/// The node answers the question, with any value or with the given one.
pub open spec fn answers(n: NodeView, frage: Seq<char>, wert: Option<Seq<char>>) -> bool {
    &&& n.typ == NodeType::Fact
    &&& n.frage_id == Some(frage)
    &&& n.wert is Some
    &&& wert is Some ==> n.wert == wert
}

/// The masses of the answers to a question.
pub open spec fn masses(nodes: Seq<NodeView>, frage: Seq<char>, wert: Option<Seq<char>>) -> Seq<
    Score,
> {
    nodes.filter(|n: NodeView| answers(n, frage, wert)).map_values(|n: NodeView| n.basis_score)
}

/// What a node asks for, given the outcomes so far.
pub open spec fn task_of(g: GraphView, s: ScoringView, n: NodeView) -> TaskView {
    let m = g.edges.len() as int;
    let pro = evidence(g.edges, s, n.id, false, m);
    let con = evidence(g.edges, s, n.id, true, m);
    match n.typ {
        NodeType::Observation => TaskView::Leaf { basis: n.basis_score, pro, con },
        NodeType::Research => TaskView::Leaf { basis: n.basis_score, pro, con },
        NodeType::Hypothesis => TaskView::Leaf { basis: n.basis_score, pro, con },
        NodeType::Fact => match (n.frage_id, n.wert) {
            (Some(f), Some(w)) => TaskView::Answer {
                own: masses(g.nodes, f, Some(w)),
                all: masses(g.nodes, f, None),
            },
            _ => TaskView::Given { basis: n.basis_score },
        },
        NodeType::Insight => TaskView::Inner { pro, con },
        NodeType::Decision => TaskView::Inner { pro, con },
    }
}

/// The task of the first node without an outcome.
pub open spec fn task_at(g: GraphView, s: ScoringView) -> Option<TaskView> {
    if s.outcomes.len() < s.order.len() {
        match last_position(g.nodes, s.order[s.outcomes.len() as int], g.nodes.len() as int) {
            Some(i) => Some(task_of(g, s, g.nodes[i])),
            None => None,
        }
    } else {
        None
    }
}

fn get_outcome(s: &Scoring, id: &str) -> (r: Option<Outcome>)
    ensures
        r == outcome_of(s@, id@, 0),
{
    let mut i: usize = 0;
    while i < s.outcomes.len() && i < s.order.len()
        invariant
            i <= s.outcomes.len(),
            i <= s.order.len(),
            outcome_of(s@, id@, 0) == outcome_of(s@, id@, i as int),
        decreases s.outcomes.len() - i,
    {
        assert(s@.order[i as int] == s.order@[i as int]@);
        if text::same(&s.order[i], id) {
            return Some(s.outcomes[i]);
        }
        i += 1;
    }
    None
}

pub(crate) fn is_replacing(polaritaet: &str) -> (r: bool)
    ensures
        r == replaces(polaritaet@),
{
    text::same(polaritaet, "replaces") || text::same(polaritaet, "ersetzt")
}

pub(crate) fn is_against(polaritaet: &str) -> (r: bool)
    ensures
        r == speaks_against(polaritaet@),
{
    text::same(polaritaet, "contradicts") || text::same(polaritaet, "widerspricht")
}

fn gather(edges: &Vec<Edge>, s: &Scoring, id: &str, against: bool) -> (r: Vec<(Score, Score)>)
    ensures
        r@ == evidence(edge_views(edges@), s@, id@, against, edges@.len() as int),
{
    let ghost es = edge_views(edges@);
    let mut out: Vec<(Score, Score)> = Vec::new();
    let mut i: usize = 0;
    while i < edges.len()
        invariant
            es == edge_views(edges@),
            i <= edges.len(),
            out@ == evidence(es, s@, id@, against, i as int),
        decreases edges.len() - i,
    {
        let e: &Edge = &edges[i];
        assert(es[i as int] == e@);
        if text::same(&e.von, id) && !is_replacing(&e.polaritaet) && is_against(&e.polaritaet)
            == against {
            let child: Score = match get_outcome(s, &e.zu) {
                Some(o) => o.score,
                None => Score { bits: 0 },
            };
            out.push((child, e.gewicht));
        }
        i += 1;
    }
    out
}

fn same_opt(a: &Option<String>, b: &str) -> (r: bool)
    ensures
        r == (opt_text(*a) == Some(b@)),
{
    match a {
        Some(s) => text::same(s, b),
        None => false,
    }
}

fn gather_masses(nodes: &Vec<Node>, frage: &str, wert: Option<&String>) -> (r: Vec<Score>)
    ensures
        r@ == masses(
            node_views(nodes@),
            frage@,
            match wert {
                Some(w) => Some(w@),
                None => None,
            },
        ),
{
    let ghost w = match wert {
        Some(w) => Some(w@),
        None => None,
    };
    let ghost all = node_views(nodes@);
    let ghost p = |n: NodeView| answers(n, frage@, w);
    let ghost b = |n: NodeView| n.basis_score;
    let mut out: Vec<Score> = Vec::new();
    let mut i: usize = 0;
    proof {
        reveal(Seq::filter);
        assert(out@ =~= all.take(0).filter(p).map_values(b));
    }
    while i < nodes.len()
        invariant
            all == node_views(nodes@),
            w == (match wert {
                Some(w) => Some(w@),
                None => None,
            }),
            p == (|n: NodeView| answers(n, frage@, w)),
            b == (|n: NodeView| n.basis_score),
            i <= nodes.len(),
            out@ == all.take(i as int).filter(p).map_values(b),
        decreases nodes.len() - i,
    {
        let n: &Node = &nodes[i];
        assert(all[i as int] == n@);
        let ghost kept = all.take(i as int).filter(p);
        proof {
            assert(all.take(i + 1) =~= all.take(i as int).push(all[i as int]));
            lemma_filter_push(all.take(i as int), all[i as int], p);
            assert(kept.push(all[i as int]).map_values(b) =~= kept.map_values(b).push(
                all[i as int].basis_score,
            ));
        }
        let fits: bool = match wert {
            Some(x) => same_opt(&n.wert, x),
            None => n.wert.is_some(),
        };
        if n.typ == NodeType::Fact && same_opt(&n.frage_id, frage) && fits {
            out.push(n.basis_score);
        }
        i += 1;
    }
    assert(all.take(all.len() as int) =~= all);
    out
}

fn make_task(graph: &KnowledgeGraph, s: &Scoring, n: &Node) -> (r: Task)
    ensures
        r@ == task_of(graph@, s@, n@),
{
    match n.typ {
        NodeType::Fact => match (&n.frage_id, &n.wert) {
            (Some(f), Some(w)) => Task::Answer {
                own: gather_masses(&graph.nodes, f, Some(w)),
                all: gather_masses(&graph.nodes, f, None),
            },
            _ => Task::Given { basis: n.basis_score },
        },
        NodeType::Insight | NodeType::Decision => Task::Inner {
            pro: gather(&graph.edges, s, &n.id, false),
            con: gather(&graph.edges, s, &n.id, true),
        },
        _ => Task::Leaf {
            basis: n.basis_score,
            pro: gather(&graph.edges, s, &n.id, false),
            con: gather(&graph.edges, s, &n.id, true),
        },
    }
}

fn find_last(nodes: &Vec<Node>, id: &str) -> (r: Option<usize>)
    ensures
        match r {
            Some(i) => i < nodes.len() && last_position(
                node_views(nodes@),
                id@,
                nodes@.len() as int,
            ) == Some(i as int),
            None => last_position(node_views(nodes@), id@, nodes@.len() as int) is None,
        },
{
    let mut i: usize = nodes.len();
    while i > 0
        invariant
            i <= nodes.len(),
            last_position(node_views(nodes@), id@, nodes@.len() as int) == last_position(
                node_views(nodes@),
                id@,
                i as int,
            ),
        decreases i,
    {
        assert(node_views(nodes@)[i - 1] == nodes@[i - 1]@);
        if text::same(&nodes[i - 1].id, id) {
            return Some(i - 1);
        }
        i -= 1;
    }
    None
}

/// Begins a wave over a graph.
pub fn start(graph: &KnowledgeGraph) -> (r: Scoring)
    ensures
        lists_nodes(graph@, r@.order),
        acyclic(live_edges(graph@)) ==> evidence_first(graph@, r@.order),
        evidence_first_off_cycles(graph@, r@.order),
        r@.outcomes == Seq::<Outcome>::empty(),
{
    Scoring { order: order_nodes(graph), outcomes: Vec::new() }
}

/// What the next node asks for; nothing once every node has its outcome.
pub fn next_task(graph: &KnowledgeGraph, s: &Scoring) -> (r: Option<Task>)
    ensures
        match r {
            Some(t) => task_at(graph@, s@) == Some(t@),
            None => task_at(graph@, s@) is None,
        },
{
    if s.outcomes.len() >= s.order.len() {
        return None;
    }
    let id: &String = &s.order[s.outcomes.len()];
    assert(s@.order[s.outcomes@.len() as int] == id@);
    match find_last(&graph.nodes, id) {
        Some(i) => {
            assert(graph@.nodes[i as int] == graph.nodes@[i as int]@);
            Some(make_task(graph, s, &graph.nodes[i]))
        },
        None => None,
    }
}

/// Takes the outcome of the node that `next_task` was about.
pub fn record_outcome(s: &mut Scoring, outcome: Outcome)
    ensures
        final(s)@ == (ScoringView {
            outcomes: old(s)@.outcomes.push(outcome),
            ..old(s)@
        }),
{
    s.outcomes.push(outcome);
}

// ---- scores and statuses ----

/// The status for a balance.
pub open spec fn balance_status(b: Balance) -> Seq<char> {
    match b {
        Balance::Little => "unsupported"@,
        Balance::Supported => "supported"@,
        Balance::Refuted => "refuted"@,
        Balance::Disputed => "disputed"@,
    }
}

/// What is believed of a node, by its type and balance. Observations, research and
/// hypotheses hold until something speaks against them, and so do facts that belong
/// to no question.
pub open spec fn belief(n: NodeView, b: Balance) -> Seq<char> {
    match n.typ {
        NodeType::Fact => if n.frage_id is Some && n.wert is Some {
            balance_status(b)
        } else {
            "supported"@
        },
        NodeType::Insight => balance_status(b),
        NodeType::Decision => balance_status(b),
        _ => if b == Balance::Little {
            "supported"@
        } else {
            balance_status(b)
        },
    }
}

/// The belief in the nodes with an id; nothing where it has no outcome.
pub open spec fn belief_of(g: GraphView, s: ScoringView, id: Seq<char>) -> Seq<char> {
    match (outcome_of(s, id, 0), last_position(g.nodes, id, g.nodes.len() as int)) {
        (Some(o), Some(i)) => belief(g.nodes[i], o.balance),
        _ => Seq::empty(),
    }
}

/// Another node takes the place of this one.
pub open spec fn superseded(edges: Seq<EdgeView>, id: Seq<char>) -> bool {
    exists|k: int|
        0 <= k < edges.len() && replaces((#[trigger] edges[k]).polaritaet) && edges[k].zu == id
}

/// The status of a node: what is retired is superseded; else what is carried out is
/// done; else a decision is active; all else has its belief.
pub open spec fn status_of(g: GraphView, s: ScoringView, n: NodeView) -> Seq<char> {
    if n.ueberholt || superseded(g.edges, n.id) {
        "superseded"@
    } else if n.erledigt {
        "done"@
    } else if n.typ == NodeType::Decision {
        "active"@
    } else {
        belief_of(g, s, n.id)
    }
}

/// A node with its score and status set.
pub open spec fn rescored_node(g: GraphView, s: ScoringView, n: NodeView) -> NodeView {
    NodeView {
        score: match outcome_of(s, n.id, 0) {
            Some(o) => o.score,
            None => n.score,
        },
        status: status_of(g, s, n),
        ..n
    }
}

/// The graph with all scores and statuses set.
pub open spec fn rescored(g: GraphView, s: ScoringView) -> GraphView {
    GraphView { nodes: g.nodes.map_values(|n: NodeView| rescored_node(g, s, n)), ..g }
}

/// The status for a balance.
pub fn status_from(b: Balance) -> (r: &'static str)
    ensures
        r@ == balance_status(b),
{
    match b {
        Balance::Little => "unsupported",
        Balance::Supported => "supported",
        Balance::Refuted => "refuted",
        Balance::Disputed => "disputed",
    }
}

fn get_belief(n: &Node, b: Balance) -> (r: &'static str)
    ensures
        r@ == belief(n@, b),
{
    match n.typ {
        NodeType::Fact => if n.frage_id.is_some() && n.wert.is_some() {
            status_from(b)
        } else {
            "supported"
        },
        NodeType::Insight | NodeType::Decision => status_from(b),
        _ => if b == Balance::Little {
            "supported"
        } else {
            status_from(b)
        },
    }
}

fn is_superseded(edges: &Vec<Edge>, id: &str) -> (r: bool)
    ensures
        r == superseded(edge_views(edges@), id@),
{
    let ghost es = edge_views(edges@);
    let mut i: usize = 0;
    while i < edges.len()
        invariant
            es == edge_views(edges@),
            i <= edges.len(),
            forall|k: int|
                0 <= k < i ==> !(replaces((#[trigger] es[k]).polaritaet) && es[k].zu == id@),
        decreases edges.len() - i,
    {
        assert(es[i as int] == edges@[i as int]@);
        if is_replacing(&edges[i].polaritaet) && text::same(&edges[i].zu, id) {
            return true;
        }
        i += 1;
    }
    false
}

fn get_status(graph: &KnowledgeGraph, s: &Scoring, n: &Node) -> (r: String)
    ensures
        r@ == status_of(graph@, s@, n@),
{
    if n.ueberholt || is_superseded(&graph.edges, &n.id) {
        "superseded".to_owned()
    } else if n.erledigt {
        "done".to_owned()
    } else if n.typ == NodeType::Decision {
        "active".to_owned()
    } else {
        match (get_outcome(s, &n.id), find_last(&graph.nodes, &n.id)) {
            (Some(o), Some(i)) => {
                assert(graph@.nodes[i as int] == graph.nodes@[i as int]@);
                get_belief(&graph.nodes[i], o.balance).to_owned()
            },
            _ => String::new(),
        }
    }
}

/// Sets the scores and statuses of a graph from the outcomes of a wave. Nothing else
/// changes.
pub fn recompute_scores(graph: &mut KnowledgeGraph, s: &Scoring)
    ensures
        final(graph)@ == rescored(old(graph)@, s@),
{
    let ghost g = graph@;
    let mut nodes: Vec<Node> = Vec::new();
    let mut i: usize = 0;
    while i < graph.nodes.len()
        invariant
            g == graph@,
            i <= graph.nodes.len(),
            nodes.len() == i,
            forall|k: int| 0 <= k < i ==> (#[trigger] nodes@[k])@ == rescored_node(g, s@, g.nodes[k]),
        decreases graph.nodes.len() - i,
    {
        assert(g.nodes[i as int] == graph.nodes@[i as int]@);
        let mut n: Node = graph.nodes[i].copy();
        if let Some(o) = get_outcome(s, &n.id) {
            n.score = o.score;
        }
        n.status = get_status(graph, s, &graph.nodes[i]);
        nodes.push(n);
        i += 1;
    }
    graph.nodes = nodes;
    assert(graph@ =~= rescored(g, s@));
}

// ---- what holds of the wave ----

/// In a graph without cycles, when the turn of a node comes every node that bears on
/// it already has its outcome: one wave is enough.
pub proof fn evidence_is_scored_first(g: GraphView, s: ScoringView, k: int)
    requires
        evidence_first(g, s.order),
        s.outcomes.len() < s.order.len(),
        0 <= k < g.edges.len(),
        g.edges[k].von == s.order[s.outcomes.len() as int],
        g.has_node(g.edges[k].zu),
    ensures
        outcome_of(s, g.edges[k].zu, 0) is Some,
{
    let m = s.outcomes.len() as int;
    assert(among(s.order, m, g.edges[k].zu));
    let j = choose|j: int| 0 <= j < m && j < s.order.len() && #[trigger] s.order[j]
        == g.edges[k].zu;
    lemma_outcome_known(s, g.edges[k].zu, j, 0);
}

proof fn lemma_outcome_known(s: ScoringView, id: Seq<char>, j: int, from: int)
    requires
        0 <= from <= j < s.outcomes.len(),
        j < s.order.len(),
        s.order[j] == id,
    ensures
        outcome_of(s, id, from) is Some,
    decreases j - from,
{
    if from < j && s.order[from] != id {
        lemma_outcome_known(s, id, j, from + 1);
    }
}

/// A complete wave leaves no node of the graph without an outcome.
pub proof fn complete_wave_covers_all(g: GraphView, s: ScoringView, i: int)
    requires
        lists_nodes(g, s.order),
        s.outcomes.len() >= s.order.len(),
        0 <= i < g.nodes.len(),
    ensures
        outcome_of(s, g.nodes[i].id, 0) is Some,
{
    assert(g.has_node(g.nodes[i].id));
    assert(s.order.contains(g.nodes[i].id));
    let j = choose|j: int| 0 <= j < s.order.len() && s.order[j] == g.nodes[i].id;
    lemma_outcome_known(s, g.nodes[i].id, j, 0);
}

/// A retired node is superseded whatever else holds of it; else a node carried out is
/// done; else a decision is active, however little evidence it has.
pub proof fn lifecycle_overrides_belief(g: GraphView, s: ScoringView, i: int)
    requires
        0 <= i < g.nodes.len(),
    ensures
        ({
            let n = g.nodes[i];
            let status = rescored(g, s).nodes[i].status;
            &&& n.ueberholt || superseded(g.edges, n.id) ==> status == "superseded"@
            &&& !(n.ueberholt || superseded(g.edges, n.id)) && n.erledigt ==> status == "done"@
            &&& !(n.ueberholt || superseded(g.edges, n.id)) && !n.erledigt && n.typ
                == NodeType::Decision ==> status == "active"@
        }),
{
}

/// Stored scores and statuses never feed a new wave: a graph that was scored before
/// asks for the same arithmetic, and the same outcomes leave it as it is.
pub proof fn scoring_ignores_old_scores(g: GraphView, old: ScoringView, s: ScoringView)
    ensures
        task_at(rescored(g, old), s) == task_at(g, s),
        (forall|i: int| 0 <= i < g.nodes.len() ==> outcome_of(s, #[trigger] g.nodes[i].id, 0) is Some)
            ==> rescored(rescored(g, old), s) == rescored(g, s),
{
    let r = rescored(g, old);
    let m = g.nodes.len() as int;
    assert forall|id: Seq<char>| #[trigger] last_position(r.nodes, id, m) == last_position(
        g.nodes,
        id,
        m,
    ) by {
        lemma_last_position_same(g, old, id, m);
    }
    assert forall|f: Seq<char>, w: Option<Seq<char>>| #[trigger] masses(r.nodes, f, w) == masses(
        g.nodes,
        f,
        w,
    ) by {
        lemma_masses_same(g.nodes, r.nodes, f, w);
    }
    if forall|i: int| 0 <= i < g.nodes.len() ==> outcome_of(s, #[trigger] g.nodes[i].id, 0) is Some {
        assert forall|i: int| 0 <= i < g.nodes.len() implies #[trigger] rescored(r, s).nodes[i]
            == rescored(g, s).nodes[i] by {
            let n = g.nodes[i];
            assert(outcome_of(s, g.nodes[i].id, 0) is Some);
            lemma_last_position(g.nodes, n.id, m);
            assert(last_position(r.nodes, n.id, m) == last_position(g.nodes, n.id, m));
            assert(belief_of(r, s, n.id) == belief_of(g, s, n.id));
        }
        assert(rescored(r, s).nodes =~= rescored(g, s).nodes);
    }
    if s.outcomes.len() < s.order.len() {
        let id = s.order[s.outcomes.len() as int];
        lemma_last_position(g.nodes, id, m);
        assert(last_position(r.nodes, id, m) == last_position(g.nodes, id, m));
    }
}

proof fn lemma_last_position(nodes: Seq<NodeView>, id: Seq<char>, n: int)
    requires
        n <= nodes.len(),
    ensures
        last_position(nodes, id, n) matches Some(i) ==> 0 <= i < n && nodes[i].id == id,
    decreases n,
{
    if n > 0 && nodes[n - 1].id != id {
        lemma_last_position(nodes, id, n - 1);
    }
}

proof fn lemma_last_position_same(g: GraphView, s: ScoringView, id: Seq<char>, n: int)
    requires
        n <= g.nodes.len(),
    ensures
        last_position(rescored(g, s).nodes, id, n) == last_position(g.nodes, id, n),
    decreases n,
{
    if n > 0 {
        lemma_last_position_same(g, s, id, n - 1);
    }
}

proof fn lemma_masses_same(a: Seq<NodeView>, b: Seq<NodeView>, f: Seq<char>, w: Option<Seq<char>>)
    requires
        a.len() == b.len(),
        forall|i: int|
            0 <= i < a.len() ==> (#[trigger] b[i]).typ == a[i].typ && b[i].frage_id == a[i].frage_id
                && b[i].wert == a[i].wert && b[i].basis_score == a[i].basis_score,
    ensures
        masses(a, f, w) == masses(b, f, w),
    decreases a.len(),
{
    let p = |n: NodeView| answers(n, f, w);
    let v = |n: NodeView| n.basis_score;
    if a.len() == 0 {
        assert(a =~= b);
    } else {
        let x = a.drop_last();
        let y = b.drop_last();
        assert forall|i: int| 0 <= i < x.len() implies (#[trigger] y[i]).typ == x[i].typ
            && y[i].frage_id == x[i].frage_id && y[i].wert == x[i].wert && y[i].basis_score
            == x[i].basis_score by {
            assert(b[i].typ == a[i].typ);
        }
        assert(b[b.len() - 1].typ == a[a.len() - 1].typ);
        lemma_masses_same(x, y, f, w);
        assert(a =~= x.push(a.last()) && b =~= y.push(b.last()));
        lemma_filter_push(x, a.last(), p);
        lemma_filter_push(y, b.last(), p);
        assert(x.filter(p).push(a.last()).map_values(v) =~= x.filter(p).map_values(v).push(
            a.last().basis_score,
        ));
        assert(y.filter(p).push(b.last()).map_values(v) =~= y.filter(p).map_values(v).push(
            b.last().basis_score,
        ));
    }
}

} // verus!

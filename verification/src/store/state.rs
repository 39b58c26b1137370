//! What holds now: the active decisions, and the questions with their leading answers.

use vstd::prelude::*;

use crate::seqs::lemma_filter_take;
use crate::store::model::{node_views, GraphView, KnowledgeGraph, Node, NodeType, NodeView};
use crate::text;

verus! {

/// The node is a decision that holds.
pub open spec fn is_active_decision(n: NodeView) -> bool {
    n.typ == NodeType::Decision && n.status == "active"@
}

/// The decisions that hold.
pub open spec fn active_decisions(g: GraphView) -> Seq<NodeView> {
    g.nodes.filter(|n: NodeView| is_active_decision(n))
}

/// The node gives a value for the question.
pub open spec fn gives_value(n: NodeView, frage: Seq<char>) -> bool {
    n.frage_id == Some(frage) && n.wert is Some
}

/// The position of the leading answer to a question among the first `n` nodes: the best
/// scored one, the earliest of several.
pub open spec fn leading(nodes: Seq<NodeView>, frage: Seq<char>, n: int) -> Option<int>
    decreases n,
{
    if n <= 0 {
        None
    } else {
        let before = leading(nodes, frage, n - 1);
        let x = nodes[n - 1];
        if gives_value(x, frage) && (before matches Some(b) ==> x.score.above(nodes[b].score)) {
            Some(n - 1)
        } else {
            before
        }
    }
}

/// The leading value of a question.
pub open spec fn leading_value(nodes: Seq<NodeView>, frage: Seq<char>) -> Option<Seq<char>> {
    match leading(nodes, frage, nodes.len() as int) {
        Some(i) => nodes[i].wert,
        None => None,
    }
}

/// The question is answered: its leading answer is supported.
pub open spec fn is_answered(nodes: Seq<NodeView>, frage: Seq<char>) -> bool {
    match leading(nodes, frage, nodes.len() as int) {
        Some(i) => nodes[i].status == "supported"@,
        None => false,
    }
}

/// Finds the decisions that hold.
pub fn find_active_decisions(graph: &KnowledgeGraph) -> (r: Vec<Node>)
    ensures
        node_views(r@) == active_decisions(graph@),
{
    let ghost nodes = graph@.nodes;
    let ghost p = |n: NodeView| is_active_decision(n);
    let mut out: Vec<Node> = Vec::new();
    let mut i: usize = 0;
    proof {
        reveal(Seq::filter);
        assert(node_views(out@) =~= nodes.take(0).filter(p));
    }
    while i < graph.nodes.len()
        invariant
            nodes == graph@.nodes,
            p == (|n: NodeView| is_active_decision(n)),
            i <= graph.nodes.len(),
            node_views(out@) == nodes.take(i as int).filter(p),
        decreases graph.nodes.len() - i,
    {
        let n: &Node = &graph.nodes[i];
        assert(nodes[i as int] == n@);
        proof {
            lemma_filter_take(nodes, i as int, p);
        }
        if n.typ == NodeType::Decision && text::same(&n.status, "active") {
            let ghost before = out@;
            out.push(n.copy());
            assert(node_views(out@) =~= node_views(before).push(n@));
        }
        i += 1;
    }
    assert(nodes.take(nodes.len() as int) =~= nodes);
    out
}

/// Finds the leading answer to a question.
pub fn find_leading(graph: &KnowledgeGraph, frage: &str) -> (r: Option<usize>)
    ensures
        match r {
            Some(i) => i < graph.nodes.len() && leading(
                graph@.nodes,
                frage@,
                graph@.nodes.len() as int,
            ) == Some(i as int),
            None => leading(graph@.nodes, frage@, graph@.nodes.len() as int) is None,
        },
{
    let ghost nodes = graph@.nodes;
    let mut best: Option<usize> = None;
    let mut i: usize = 0;
    while i < graph.nodes.len()
        invariant
            nodes == graph@.nodes,
            i <= graph.nodes.len(),
            match best {
                Some(b) => b < i && leading(nodes, frage@, i as int) == Some(b as int),
                None => leading(nodes, frage@, i as int) is None,
            },
        decreases graph.nodes.len() - i,
    {
        let n: &Node = &graph.nodes[i];
        assert(nodes[i as int] == n@);
        let belongs: bool = match &n.frage_id {
            Some(f) => text::same(f, frage),
            None => false,
        };
        if belongs && n.wert.is_some() {
            match best {
                None => best = Some(i),
                Some(b) => {
                    assert(nodes[b as int] == graph.nodes@[b as int]@);
                    if n.score.exceeds(&graph.nodes[b].score) {
                        best = Some(i);
                    }
                },
            }
        }
        i += 1;
    }
    best
}

/// A question with its leading value, and whether it is answered.
pub fn judge_question(graph: &KnowledgeGraph, frage: &str) -> (r: (Option<String>, bool))
    ensures
        text::opt_text(r.0) == leading_value(graph@.nodes, frage@),
        r.1 == is_answered(graph@.nodes, frage@),
{
    match find_leading(graph, frage) {
        Some(i) => {
            let n: &Node = &graph.nodes[i];
            assert(graph@.nodes[i as int] == n@);
            (text::clone_opt(&n.wert), text::same(&n.status, "supported"))
        },
        None => (None, false),
    }
}

/// No answer to a question is scored above the leading one, where the scores are
/// numbers; and a question with an answer has a leading one.
pub proof fn leading_is_best(nodes: Seq<NodeView>, frage: Seq<char>, n: int)
    requires
        0 <= n <= nodes.len(),
        forall|j: int| 0 <= j < nodes.len() ==> !(#[trigger] nodes[j]).score.is_nan(),
    ensures
        match leading(nodes, frage, n) {
            Some(b) => 0 <= b < n && gives_value(nodes[b], frage) && forall|k: int|
                0 <= k < n && gives_value(#[trigger] nodes[k], frage) ==> !nodes[k].score.above(
                    nodes[b].score,
                ),
            None => forall|k: int| 0 <= k < n ==> !gives_value(#[trigger] nodes[k], frage),
        },
    decreases n,
{
    if n > 0 {
        leading_is_best(nodes, frage, n - 1);
        assert(!nodes[n - 1].score.is_nan());
        if let Some(b) = leading(nodes, frage, n - 1) {
            assert(!nodes[b].score.is_nan());
            assert forall|k: int| 0 <= k < n && gives_value(
                #[trigger] nodes[k],
                frage,
            ) implies !nodes[k].score.above(nodes[leading(nodes, frage, n)->0].score) by {
                assert(!nodes[k].score.is_nan());
            }
        }
    }
}

} // verus!

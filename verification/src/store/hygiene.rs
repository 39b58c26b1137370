//! Tidying hints: structural signs that the graph could use some curation.

use vstd::prelude::*;
use vstd::string::StringExecFns;

use crate::seqs::lemma_filter_push;
use crate::store::model::{
    edge_views, frage_views, node_views, Edge, EdgeView, Frage, FrageView, GraphView,
    KnowledgeGraph, Node, NodeType, NodeView,
};
use crate::store::scoring::{is_against, speaks_against};
use crate::text;
use crate::text::{joined, lowercase, shortened, texts, trimmed};

verus! {

/// The most hints given at once.
pub const MAX_HINTS: usize = 6;

/// A text in short: trimmed and cut to `max` characters.
pub open spec fn brief(s: Seq<char>, max: int) -> Seq<char> {
    shortened(trimmed(s), max, "…"@)
}

/// A text in short.
pub fn truncate(s: &str, max: usize) -> (r: String)
    ensures
        r@ == brief(s@, max as int),
{
    text::shorten(&text::trim(s), max, "…")
}

// ---- evidence that nothing rests on ----

/// The node is a piece of evidence.
pub open spec fn is_evidence(n: NodeView) -> bool {
    n.typ == NodeType::Observation || n.typ == NodeType::Research || n.typ == NodeType::Hypothesis
}

/// Some edge points at the id.
pub open spec fn pointed_at(edges: Seq<EdgeView>, id: Seq<char>) -> bool {
    exists|k: int| 0 <= k < edges.len() && (#[trigger] edges[k]).zu == id
}

/// The evidence that nothing rests on.
pub open spec fn loose_evidence(g: GraphView) -> Seq<NodeView> {
    g.nodes.filter(|n: NodeView| is_evidence(n) && !pointed_at(g.edges, n.id))
}

/// A statement in short, in quotes.
pub open spec fn quoted_brief(n: NodeView) -> Seq<char> {
    "\""@ + brief(n.inhalt, 50) + "\""@
}

/// The hint on loose evidence, where there are at least two pieces.
pub open spec fn loose_hint(g: GraphView) -> Seq<Seq<char>> {
    let loose = loose_evidence(g);
    if loose.len() >= 2 {
        let shown = if loose.len() > 4 {
            loose.take(4)
        } else {
            loose
        };
        seq![
            text::decimal(loose.len()) + " pieces of evidence are not attached to any insight ("@
                + joined(shown.map_values(|n: NodeView| quoted_brief(n)), ", "@) + (if loose.len()
                > 4 {
                ", …"@
            } else {
                ""@
            })
                + "). Check whether they can be bundled into an insight (record_knowledge typ=insight, then link to the evidence)."@,
        ]
    } else {
        Seq::empty()
    }
}

fn is_pointed_at(edges: &Vec<Edge>, id: &str) -> (r: bool)
    ensures
        r == pointed_at(edge_views(edges@), id@),
{
    let mut i: usize = 0;
    while i < edges.len()
        invariant
            i <= edges.len(),
            forall|k: int| 0 <= k < i ==> (#[trigger] edge_views(edges@)[k]).zu != id@,
        decreases edges.len() - i,
    {
        assert(edge_views(edges@)[i as int] == edges@[i as int]@);
        if text::same(&edges[i].zu, id) {
            return true;
        }
        i += 1;
    }
    false
}

fn find_loose(graph: &KnowledgeGraph) -> (r: Vec<Node>)
    ensures
        node_views(r@) == loose_evidence(graph@),
{
    let ghost g = graph@;
    let ghost p = |n: NodeView| is_evidence(n) && !pointed_at(g.edges, n.id);
    let mut out: Vec<Node> = Vec::new();
    let mut i: usize = 0;
    proof {
        reveal(Seq::filter);
        assert(node_views(out@) =~= g.nodes.take(0).filter(p));
    }
    while i < graph.nodes.len()
        invariant
            g == graph@,
            p == (|n: NodeView| is_evidence(n) && !pointed_at(g.edges, n.id)),
            i <= graph.nodes.len(),
            node_views(out@) == g.nodes.take(i as int).filter(p),
        decreases graph.nodes.len() - i,
    {
        assert(g.nodes[i as int] == graph.nodes@[i as int]@);
        proof {
            assert(g.nodes.take(i + 1) =~= g.nodes.take(i as int).push(g.nodes[i as int]));
            lemma_filter_push(g.nodes.take(i as int), g.nodes[i as int], p);
        }
        let n: &Node = &graph.nodes[i];
        let leaf: bool = match n.typ {
            NodeType::Observation | NodeType::Research | NodeType::Hypothesis => true,
            _ => false,
        };
        if leaf && !is_pointed_at(&graph.edges, &n.id) {
            let ghost before = out@;
            out.push(n.copy());
            assert(node_views(out@) =~= node_views(before).push(g.nodes[i as int]));
        }
        i += 1;
    }
    assert(g.nodes.take(g.nodes.len() as int) =~= g.nodes);
    out
}

fn hint_loose(graph: &KnowledgeGraph, out: &mut Vec<String>)
    ensures
        texts(final(out)@) == texts(old(out)@) + loose_hint(graph@),
{
    let ghost before = texts(out@);
    let loose: Vec<Node> = find_loose(graph);
    let ghost all = node_views(loose@);
    assert(all.len() == loose@.len());
    if loose.len() < 2 {
        assert(before + Seq::<Seq<char>>::empty() =~= before);
        return;
    }
    let n: usize = if loose.len() > 4 {
        4
    } else {
        loose.len()
    };
    let mut sample: Vec<String> = Vec::new();
    let mut i: usize = 0;
    while i < n
        invariant
            i <= n <= loose.len(),
            sample.len() == i,
            forall|k: int| 0 <= k < i ==> (#[trigger] sample@[k])@ == quoted_brief(loose@[k]@),
        decreases n - i,
    {
        sample.push("\"".to_owned().concat(&truncate(&loose[i].inhalt, 50)).concat("\""));
        i += 1;
    }
    let ghost shown = if all.len() > 4 {
        all.take(4)
    } else {
        all
    };
    assert(texts(sample@) =~= shown.map_values(|n: NodeView| quoted_brief(n)));
    let hint: String = text::number(loose.len() as u64).concat(
        " pieces of evidence are not attached to any insight (",
    ).concat(&text::join(&sample, ", ")).concat(
        if loose.len() > 4 {
            ", …"
        } else {
            ""
        },
    ).concat(
        "). Check whether they can be bundled into an insight (record_knowledge typ=insight, then link to the evidence).",
    );
    let ghost list = out@;
    out.push(hint);
    assert(texts(out@) =~= before + loose_hint(graph@));
}

// ---- questions with several answers ----

/// The hint on a question with competing values.
pub open spec fn competing_hint(f: FrageView) -> Seq<char> {
    "Question \""@ + brief(f.inhalt, 50) + "\" has competing values ("@ + joined(f.werte, " vs "@)
        + "). If one answer holds, record it (weight/insight); otherwise it stays disputed."@
}

/// The hints on the first `n` questions.
pub open spec fn competing_hints(fragen: Seq<FrageView>, n: int) -> Seq<Seq<char>>
    decreases n,
{
    if n <= 0 {
        Seq::empty()
    } else {
        let before = competing_hints(fragen, n - 1);
        if fragen[n - 1].werte.len() >= 2 {
            before.push(competing_hint(fragen[n - 1]))
        } else {
            before
        }
    }
}

fn hint_competing(fragen: &Vec<Frage>, out: &mut Vec<String>)
    ensures
        texts(final(out)@) == texts(old(out)@) + competing_hints(
            frage_views(fragen@),
            fragen@.len() as int,
        ),
{
    let ghost all = frage_views(fragen@);
    let ghost before = texts(out@);
    let mut i: usize = 0;
    assert(before + competing_hints(all, 0) =~= before);
    while i < fragen.len()
        invariant
            all == frage_views(fragen@),
            i <= fragen.len(),
            texts(out@) == before + competing_hints(all, i as int),
        decreases fragen.len() - i,
    {
        let f: &Frage = &fragen[i];
        assert(all[i as int] == f@);
        assert(f@.werte.len() == f.werte@.len());
        if f.werte.len() >= 2 {
            let hint: String = "Question \"".to_owned().concat(&truncate(&f.inhalt, 50)).concat(
                "\" has competing values (",
            ).concat(&text::join(&f.werte, " vs ")).concat(
                "). If one answer holds, record it (weight/insight); otherwise it stays disputed.",
            );
            let ghost list = texts(out@);
            out.push(hint);
            assert(texts(out@) =~= list.push(competing_hint(f@)));
            assert(before + competing_hints(all, i + 1) =~= list.push(competing_hint(f@)));
        }
        i += 1;
    }
}

// ---- evidence on both sides ----

/// An edge from the id speaks against it, or (`against` unset) does not.
pub open spec fn has_side(edges: Seq<EdgeView>, id: Seq<char>, against: bool) -> bool {
    exists|k: int|
        0 <= k < edges.len() && (#[trigger] edges[k]).von == id && speaks_against(
            edges[k].polaritaet,
        ) == against
}

/// An earlier edge begins at the same node as the edge at `n`.
pub open spec fn begun(edges: Seq<EdgeView>, n: int) -> bool {
    exists|k: int| 0 <= k < n && (#[trigger] edges[k]).von == edges[n].von
}

/// The hint on a node with evidence on both sides.
pub open spec fn conflict_hint(n: NodeView) -> Seq<char> {
    "\""@ + brief(n.inhalt, 50)
        + "\" has BOTH supporting AND contradicting evidence — conflict visible; assess or resolve it."@
}

/// The hints on the nodes at which the first `n` edges begin, each node once.
pub open spec fn conflict_hints(g: GraphView, n: int) -> Seq<Seq<char>>
    decreases n,
{
    if n <= 0 {
        Seq::empty()
    } else {
        let before = conflict_hints(g, n - 1);
        let von = g.edges[n - 1].von;
        if !begun(g.edges, n - 1) && has_side(g.edges, von, false) && has_side(g.edges, von, true) {
            match g.position(von) {
                Some(i) => before.push(conflict_hint(g.nodes[i])),
                None => before,
            }
        } else {
            before
        }
    }
}

fn is_sided(edges: &Vec<Edge>, id: &str, against: bool) -> (r: bool)
    ensures
        r == has_side(edge_views(edges@), id@, against),
{
    let ghost es = edge_views(edges@);
    let mut i: usize = 0;
    while i < edges.len()
        invariant
            es == edge_views(edges@),
            i <= edges.len(),
            forall|k: int|
                0 <= k < i ==> !((#[trigger] es[k]).von == id@ && speaks_against(es[k].polaritaet)
                    == against),
        decreases edges.len() - i,
    {
        assert(es[i as int] == edges@[i as int]@);
        if text::same(&edges[i].von, id) && is_against(&edges[i].polaritaet) == against {
            return true;
        }
        i += 1;
    }
    false
}

fn is_begun(edges: &Vec<Edge>, n: usize) -> (r: bool)
    requires
        n < edges.len(),
    ensures
        r == begun(edge_views(edges@), n as int),
{
    let ghost es = edge_views(edges@);
    let mut i: usize = 0;
    while i < n
        invariant
            es == edge_views(edges@),
            i <= n < edges.len(),
            forall|k: int| 0 <= k < i ==> (#[trigger] es[k]).von != es[n as int].von,
        decreases n - i,
    {
        assert(es[i as int] == edges@[i as int]@ && es[n as int] == edges@[n as int]@);
        if edges[i].von == edges[n].von {
            return true;
        }
        i += 1;
    }
    false
}

fn hint_conflicts(graph: &KnowledgeGraph, out: &mut Vec<String>)
    ensures
        texts(final(out)@) == texts(old(out)@) + conflict_hints(
            graph@,
            graph@.edges.len() as int,
        ),
{
    let ghost g = graph@;
    let ghost before = texts(out@);
    let mut i: usize = 0;
    assert(before + conflict_hints(g, 0) =~= before);
    while i < graph.edges.len()
        invariant
            g == graph@,
            i <= graph.edges.len(),
            texts(out@) == before + conflict_hints(g, i as int),
        decreases graph.edges.len() - i,
    {
        assert(g.edges[i as int] == graph.edges@[i as int]@);
        let von: &String = &graph.edges[i].von;
        if !is_begun(&graph.edges, i) && is_sided(&graph.edges, von, false) && is_sided(
            &graph.edges,
            von,
            true,
        ) {
            if let Some(k) = graph.find_node(von) {
                let n: &Node = &graph.nodes[k];
                assert(g.nodes[k as int] == n@);
                let hint: String = "\"".to_owned().concat(&truncate(&n.inhalt, 50)).concat(
                    "\" has BOTH supporting AND contradicting evidence — conflict visible; assess or resolve it.",
                );
                let ghost list = texts(out@);
                out.push(hint);
                assert(texts(out@) =~= list.push(conflict_hint(n@)));
                assert(before + conflict_hints(g, i + 1) =~= list.push(conflict_hint(n@)));
            }
        }
        i += 1;
    }
}

// ---- the same thing said twice ----

/// The two statements are the same but for case and outer white space.
pub open spec fn same_statement(a: NodeView, b: NodeView) -> bool {
    lowercase(trimmed(a.inhalt)) == lowercase(trimmed(b.inhalt))
}

/// The node at `n` says first what a later node says again.
pub open spec fn said_again(nodes: Seq<NodeView>, n: int) -> bool {
    &&& exists|k: int| n < k < nodes.len() && same_statement(nodes[n], #[trigger] nodes[k])
    &&& forall|k: int| 0 <= k < n ==> !same_statement(nodes[n], #[trigger] nodes[k])
}

/// The hint on a statement that is there twice.
pub open spec fn double_hint(n: NodeView) -> Seq<char> {
    "Possible duplicate: \""@ + brief(n.inhalt, 50) + "\" — merge or link instead of duplicating."@
}

/// The hints on the first `n` nodes.
pub open spec fn double_hints(nodes: Seq<NodeView>, n: int) -> Seq<Seq<char>>
    decreases n,
{
    if n <= 0 {
        Seq::empty()
    } else {
        let before = double_hints(nodes, n - 1);
        if said_again(nodes, n - 1) {
            before.push(double_hint(nodes[n - 1]))
        } else {
            before
        }
    }
}

fn is_said_again(keys: &Vec<String>, nodes: &Vec<Node>, n: usize) -> (r: bool)
    requires
        keys.len() == nodes.len(),
        forall|k: int|
            0 <= k < keys@.len() ==> (#[trigger] keys@[k])@ == lowercase(
                trimmed(node_views(nodes@)[k].inhalt),
            ),
        n < nodes.len(),
    ensures
        r == said_again(node_views(nodes@), n as int),
{
    let ghost all = node_views(nodes@);
    let mut again: bool = false;
    let mut i: usize = 0;
    assert(keys@[n as int]@ == lowercase(trimmed(all[n as int].inhalt)));
    while i < keys.len()
        invariant
            all == node_views(nodes@),
            keys.len() == nodes.len(),
            n < nodes.len(),
            forall|k: int|
                0 <= k < keys@.len() ==> (#[trigger] keys@[k])@ == lowercase(
                    trimmed(node_views(nodes@)[k].inhalt),
                ),
            keys@[n as int]@ == lowercase(trimmed(all[n as int].inhalt)),
            i <= keys.len(),
            forall|k: int|
                0 <= k < i && k < n ==> !same_statement(all[n as int], #[trigger] all[k]),
            again == exists|k: int|
                n < k < i && same_statement(all[n as int], #[trigger] all[k]),
        decreases keys.len() - i,
    {
        assert(keys@[i as int]@ == lowercase(trimmed(all[i as int].inhalt)));
        if i != n && keys[i] == keys[n] {
            assert(same_statement(all[n as int], all[i as int]));
            if i < n {
                return false;
            }
            again = true;
        }
        i += 1;
    }
    again
}

fn hint_doubles(nodes: &Vec<Node>, out: &mut Vec<String>)
    ensures
        texts(final(out)@) == texts(old(out)@) + double_hints(
            node_views(nodes@),
            nodes@.len() as int,
        ),
{
    let ghost all = node_views(nodes@);
    let ghost before = texts(out@);
    let mut keys: Vec<String> = Vec::new();
    let mut i: usize = 0;
    while i < nodes.len()
        invariant
            all == node_views(nodes@),
            i <= nodes.len(),
            keys.len() == i,
            forall|k: int|
                0 <= k < i ==> (#[trigger] keys@[k])@ == lowercase(trimmed(all[k].inhalt)),
        decreases nodes.len() - i,
    {
        assert(all[i as int] == nodes@[i as int]@);
        keys.push(text::to_lowercase(&text::trim(&nodes[i].inhalt)));
        i += 1;
    }
    let mut i: usize = 0;
    assert(before + double_hints(all, 0) =~= before);
    while i < nodes.len()
        invariant
            all == node_views(nodes@),
            keys.len() == nodes.len(),
            forall|k: int|
                0 <= k < keys@.len() ==> (#[trigger] keys@[k])@ == lowercase(
                    trimmed(all[k].inhalt),
                ),
            i <= nodes.len(),
            texts(out@) == before + double_hints(all, i as int),
        decreases nodes.len() - i,
    {
        assert(all[i as int] == nodes@[i as int]@);
        if is_said_again(&keys, nodes, i) {
            let hint: String = "Possible duplicate: \"".to_owned().concat(
                &truncate(&nodes[i].inhalt, 50),
            ).concat("\" — merge or link instead of duplicating.");
            let ghost list = texts(out@);
            out.push(hint);
            assert(texts(out@) =~= list.push(double_hint(all[i as int])));
            assert(before + double_hints(all, i + 1) =~= list.push(double_hint(all[i as int])));
        }
        i += 1;
    }
}

// ---- all hints ----

/// All hints, however many.
pub open spec fn all_hints(g: GraphView) -> Seq<Seq<char>> {
    loose_hint(g) + competing_hints(g.fragen, g.fragen.len() as int) + conflict_hints(
        g,
        g.edges.len() as int,
    ) + double_hints(g.nodes, g.nodes.len() as int)
}

/// The hints that are given.
pub open spec fn hints(g: GraphView) -> Seq<Seq<char>> {
    let all = all_hints(g);
    if all.len() > MAX_HINTS {
        all.take(MAX_HINTS as int)
    } else {
        all
    }
}

/// Tidying hints for a graph: loose evidence, competing answers, open conflicts and
/// likely duplicates, the first few of them.
pub fn hygiene_hints(graph: &KnowledgeGraph) -> (r: Vec<String>)
    ensures
        texts(r@) == hints(graph@),
        r@.len() <= MAX_HINTS,
{
    let mut out: Vec<String> = Vec::new();
    assert(texts(out@) =~= Seq::empty());
    hint_loose(graph, &mut out);
    hint_competing(&graph.fragen, &mut out);
    hint_conflicts(graph, &mut out);
    hint_doubles(&graph.nodes, &mut out);
    assert(texts(out@) =~= all_hints(graph@));
    assert(texts(out@).len() == out@.len());
    if out.len() > MAX_HINTS {
        out.truncate(MAX_HINTS);
        assert(texts(out@) =~= hints(graph@));
    }
    out
}

/// A tidy graph gives no hints: where at most one piece of evidence is loose, no
/// question has two values, no node has evidence on both sides and no statement is
/// there twice.
pub proof fn tidy_graph_has_no_hints(g: GraphView)
    requires
        loose_evidence(g).len() < 2,
        forall|i: int| 0 <= i < g.fragen.len() ==> (#[trigger] g.fragen[i]).werte.len() < 2,
        forall|k: int|
            0 <= k < g.edges.len() ==> !(has_side(g.edges, (#[trigger] g.edges[k]).von, false)
                && has_side(g.edges, g.edges[k].von, true)),
        forall|i: int, k: int|
            0 <= i < k < g.nodes.len() ==> !same_statement(
                #[trigger] g.nodes[i],
                #[trigger] g.nodes[k],
            ),
    ensures
        hints(g).len() == 0,
{
    lemma_tidy_questions(g.fragen, g.fragen.len() as int);
    lemma_tidy_conflicts(g, g.edges.len() as int);
    lemma_tidy_doubles(g.nodes, g.nodes.len() as int);
}

proof fn lemma_tidy_questions(fragen: Seq<FrageView>, n: int)
    requires
        n <= fragen.len(),
        forall|i: int| 0 <= i < fragen.len() ==> (#[trigger] fragen[i]).werte.len() < 2,
    ensures
        competing_hints(fragen, n).len() == 0,
    decreases n,
{
    if n > 0 {
        lemma_tidy_questions(fragen, n - 1);
        assert(fragen[n - 1].werte.len() < 2);
    }
}

proof fn lemma_tidy_conflicts(g: GraphView, n: int)
    requires
        n <= g.edges.len(),
        forall|k: int|
            0 <= k < g.edges.len() ==> !(has_side(g.edges, (#[trigger] g.edges[k]).von, false)
                && has_side(g.edges, g.edges[k].von, true)),
    ensures
        conflict_hints(g, n).len() == 0,
    decreases n,
{
    if n > 0 {
        lemma_tidy_conflicts(g, n - 1);
        let e = g.edges[n - 1];
        assert(!(has_side(g.edges, e.von, false) && has_side(g.edges, e.von, true)));
    }
}

proof fn lemma_tidy_doubles(nodes: Seq<NodeView>, n: int)
    requires
        n <= nodes.len(),
        forall|i: int, k: int|
            0 <= i < k < nodes.len() ==> !same_statement(#[trigger] nodes[i], #[trigger] nodes[k]),
    ensures
        double_hints(nodes, n).len() == 0,
    decreases n,
{
    if n > 0 {
        lemma_tidy_doubles(nodes, n - 1);
    }
}

} // verus!

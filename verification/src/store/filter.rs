//! Views of a scored graph: what a query asks for, and the neighbourhood of nodes.

use vstd::prelude::*;

use crate::score::Score;
use crate::seqs::{lemma_filter_complete, lemma_filter_push, lemma_filter_sound};
use crate::store::model::{
    copy_quellen, edge_views, frage_views, node_views, Edge, EdgeView, Frage, FrageView, GraphView,
    KnowledgeGraph, Node, NodeType, NodeView,
};
use crate::text;
use crate::text::{lowercase, occurs, opt_text, texts};

verus! {

/// What a query asks for. Conditions that are not set do not restrict.
#[derive(Debug, Clone)]
pub struct QueryFilter {
    /// A text in the statement, in either case.
    pub q: Option<String>,
    pub typ: Option<NodeType>,
    pub status: Option<String>,
    /// The number of best scored matches to keep.
    pub limit: Option<usize>,
    /// At least one of these tags, in either case.
    pub tags: Vec<String>,
}

#[verifier::ext_equal]
pub struct FilterView {
    pub q: Option<Seq<char>>,
    pub typ: Option<NodeType>,
    pub status: Option<Seq<char>>,
    pub limit: Option<usize>,
    pub tags: Seq<Seq<char>>,
}

impl View for QueryFilter {
    type V = FilterView;

    open spec fn view(&self) -> FilterView {
        FilterView {
            q: opt_text(self.q),
            typ: self.typ,
            status: opt_text(self.status),
            limit: self.limit,
            tags: texts(self.tags@),
        }
    }
}

/// The query that asks for everything.
pub open spec fn no_filter() -> FilterView {
    FilterView { q: None, typ: None, status: None, limit: None, tags: Seq::empty() }
}

impl Default for QueryFilter {
    fn default() -> (r: QueryFilter)
        ensures
            r@ == no_filter(),
    {
        let r = QueryFilter { q: None, typ: None, status: None, limit: None, tags: Vec::new() };
        assert(texts(r.tags@) =~= Seq::empty());
        r
    }
}

impl QueryFilter {
    /// Whether any condition is set.
    pub fn is_active(&self) -> (r: bool)
        ensures
            r == (self@ != no_filter()),
    {
        proof {
            if self.tags@.len() == 0 {
                assert(texts(self.tags@) =~= Seq::empty());
            }
            assert(texts(self.tags@).len() == self.tags@.len());
        }
        self.q.is_some() || self.typ.is_some() || self.status.is_some() || self.limit.is_some()
            || self.tags.len() > 0
    }
}

// ---- a part of the graph ----

/// Some node of a list belongs to the question.
pub open spec fn asked(nodes: Seq<NodeView>, id: Seq<char>) -> bool {
    exists|i: int| 0 <= i < nodes.len() && (#[trigger] nodes[i]).frage_id == Some(id)
}

/// The part of a graph with the given node ids: the edges with both ends in it, the
/// questions that its nodes belong to, and all documents.
pub open spec fn restricted(g: GraphView, keep: spec_fn(Seq<char>) -> bool) -> GraphView {
    let nodes = g.nodes.filter(|n: NodeView| keep(n.id));
    GraphView {
        nodes,
        edges: g.edges.filter(|e: EdgeView| keep(e.von) && keep(e.zu)),
        fragen: g.fragen.filter(|f: FrageView| asked(nodes, f.id)),
        quellen: g.quellen,
    }
}

fn is_asked(nodes: &Vec<Node>, id: &String) -> (r: bool)
    ensures
        r == asked(node_views(nodes@), id@),
{
    let mut i: usize = 0;
    while i < nodes.len()
        invariant
            i <= nodes.len(),
            forall|k: int|
                0 <= k < i ==> (#[trigger] node_views(nodes@)[k]).frage_id != Some(id@),
        decreases nodes.len() - i,
    {
        assert(node_views(nodes@)[i as int] == nodes@[i as int]@);
        if let Some(f) = &nodes[i].frage_id {
            if *f == *id {
                assert(node_views(nodes@)[i as int].frage_id == Some(id@));
                return true;
            }
        }
        i += 1;
    }
    false
}

/// Cuts the part of a graph with the listed node ids out.
fn restrict(
    graph: &KnowledgeGraph,
    keep: &Vec<String>,
    Ghost(p): Ghost<spec_fn(Seq<char>) -> bool>,
) -> (r: KnowledgeGraph)
    requires
        forall|x: Seq<char>| #[trigger] texts(keep@).contains(x) == p(x),
    ensures
        r@ == restricted(graph@, p),
{
    let ghost g = graph@;
    let ghost np = |n: NodeView| p(n.id);
    let ghost ep = |e: EdgeView| p(e.von) && p(e.zu);
    let mut nodes: Vec<Node> = Vec::new();
    let mut i: usize = 0;
    proof {
        reveal(Seq::filter);
        assert(node_views(nodes@) =~= g.nodes.take(0).filter(np));
    }
    while i < graph.nodes.len()
        invariant
            g == graph@,
            np == (|n: NodeView| p(n.id)),
            forall|x: Seq<char>| #[trigger] texts(keep@).contains(x) == p(x),
            i <= graph.nodes.len(),
            node_views(nodes@) == g.nodes.take(i as int).filter(np),
        decreases graph.nodes.len() - i,
    {
        assert(g.nodes[i as int] == graph.nodes@[i as int]@);
        proof {
            assert(g.nodes.take(i + 1) =~= g.nodes.take(i as int).push(g.nodes[i as int]));
            lemma_filter_push(g.nodes.take(i as int), g.nodes[i as int], np);
        }
        if text::one_of(&graph.nodes[i].id, keep) {
            let ghost before = nodes@;
            nodes.push(graph.nodes[i].copy());
            assert(node_views(nodes@) =~= node_views(before).push(g.nodes[i as int]));
        }
        i += 1;
    }
    assert(g.nodes.take(g.nodes.len() as int) =~= g.nodes);
    let mut edges: Vec<Edge> = Vec::new();
    let mut i: usize = 0;
    proof {
        reveal(Seq::filter);
        assert(edge_views(edges@) =~= g.edges.take(0).filter(ep));
    }
    while i < graph.edges.len()
        invariant
            g == graph@,
            ep == (|e: EdgeView| p(e.von) && p(e.zu)),
            forall|x: Seq<char>| #[trigger] texts(keep@).contains(x) == p(x),
            i <= graph.edges.len(),
            edge_views(edges@) == g.edges.take(i as int).filter(ep),
        decreases graph.edges.len() - i,
    {
        assert(g.edges[i as int] == graph.edges@[i as int]@);
        proof {
            assert(g.edges.take(i + 1) =~= g.edges.take(i as int).push(g.edges[i as int]));
            lemma_filter_push(g.edges.take(i as int), g.edges[i as int], ep);
        }
        if text::one_of(&graph.edges[i].von, keep) && text::one_of(&graph.edges[i].zu, keep) {
            let ghost before = edges@;
            edges.push(graph.edges[i].copy());
            assert(edge_views(edges@) =~= edge_views(before).push(g.edges[i as int]));
        }
        i += 1;
    }
    assert(g.edges.take(g.edges.len() as int) =~= g.edges);
    let ghost kept = node_views(nodes@);
    let ghost fp = |f: FrageView| asked(kept, f.id);
    let mut fragen: Vec<Frage> = Vec::new();
    let mut i: usize = 0;
    proof {
        reveal(Seq::filter);
        assert(frage_views(fragen@) =~= g.fragen.take(0).filter(fp));
    }
    while i < graph.fragen.len()
        invariant
            g == graph@,
            kept == node_views(nodes@),
            fp == (|f: FrageView| asked(kept, f.id)),
            i <= graph.fragen.len(),
            frage_views(fragen@) == g.fragen.take(i as int).filter(fp),
        decreases graph.fragen.len() - i,
    {
        assert(g.fragen[i as int] == graph.fragen@[i as int]@);
        proof {
            assert(g.fragen.take(i + 1) =~= g.fragen.take(i as int).push(g.fragen[i as int]));
            lemma_filter_push(g.fragen.take(i as int), g.fragen[i as int], fp);
        }
        if is_asked(&nodes, &graph.fragen[i].id) {
            let ghost before = fragen@;
            fragen.push(graph.fragen[i].copy());
            assert(frage_views(fragen@) =~= frage_views(before).push(g.fragen[i as int]));
        }
        i += 1;
    }
    assert(g.fragen.take(g.fragen.len() as int) =~= g.fragen);
    let r = KnowledgeGraph { nodes, edges, fragen, quellen: copy_quellen(&graph.quellen) };
    assert(r@ =~= restricted(g, p));
    r
}

// ---- queries ----

/// Some tag of the node is one of the wanted ones, in either case.
pub open spec fn tagged(tags: Seq<Seq<char>>, wanted: Seq<Seq<char>>) -> bool {
    exists|i: int, j: int|
        0 <= i < tags.len() && 0 <= j < wanted.len() && lowercase(#[trigger] tags[i]) == lowercase(
            #[trigger] wanted[j],
        )
}

/// The node meets every condition of a query.
pub open spec fn meets(n: NodeView, f: FilterView) -> bool {
    &&& f.q matches Some(q) ==> occurs(lowercase(n.inhalt), lowercase(q))
    &&& f.typ matches Some(t) ==> n.typ == t
    &&& f.status matches Some(s) ==> n.status == s
    &&& f.tags.len() > 0 ==> tagged(n.tags, f.tags)
}

/// Of two nodes at positions `i` and `k`, the first comes first: it is scored higher,
/// or it is not scored lower and stands earlier.
pub open spec fn ahead(a: Score, i: int, b: Score, k: int) -> bool {
    a.above(b) || (!b.above(a) && i < k)
}

/// How many of the first `n` nodes meet the query and come before the node at `i`.
pub open spec fn ahead_of(nodes: Seq<NodeView>, f: FilterView, i: int, n: int) -> nat
    decreases n,
{
    if n <= 0 {
        0
    } else {
        ahead_of(nodes, f, i, n - 1) + (if n - 1 < nodes.len() && n - 1 != i && meets(
            nodes[n - 1],
            f,
        ) && ahead(nodes[n - 1].score, n - 1, nodes[i].score, i) {
            1nat
        } else {
            0nat
        })
    }
}

/// The node at `i` is what the query asks for: it meets the conditions and is among
/// the best scored ones, as many as the limit allows.
pub open spec fn is_match(g: GraphView, f: FilterView, i: int) -> bool {
    &&& 0 <= i < g.nodes.len()
    &&& meets(g.nodes[i], f)
    &&& f.limit matches Some(l) ==> ahead_of(g.nodes, f, i, g.nodes.len() as int) < l
}

/// The id belongs to a match.
pub open spec fn match_id(g: GraphView, f: FilterView, id: Seq<char>) -> bool {
    exists|i: int| #[trigger] is_match(g, f, i) && g.nodes[i].id == id
}

/// The id belongs to a match or to a direct neighbour of one.
pub open spec fn in_view(g: GraphView, f: FilterView, id: Seq<char>) -> bool {
    ||| match_id(g, f, id)
    ||| exists|k: int|
        0 <= k < g.edges.len() && (((#[trigger] g.edges[k]).zu == id && match_id(
            g,
            f,
            g.edges[k].von,
        )) || (g.edges[k].von == id && match_id(g, f, g.edges[k].zu)))
}

/// The view that a query gives: the matches and their direct neighbours.
pub open spec fn filtered(g: GraphView, f: FilterView) -> GraphView {
    if f == no_filter() {
        g
    } else {
        restricted(g, |id: Seq<char>| in_view(g, f, id))
    }
}

fn has_tag(tags: &Vec<String>, wanted: &Vec<String>) -> (r: bool)
    ensures
        r == tagged(texts(tags@), texts(wanted@)),
{
    let ghost a = texts(tags@);
    let ghost b = texts(wanted@);
    let mut i: usize = 0;
    while i < tags.len()
        invariant
            a == texts(tags@),
            b == texts(wanted@),
            i <= tags.len(),
            forall|x: int, y: int|
                0 <= x < i && 0 <= y < b.len() ==> lowercase(#[trigger] a[x]) != lowercase(
                    #[trigger] b[y],
                ),
        decreases tags.len() - i,
    {
        let t: String = text::to_lowercase(&tags[i]);
        assert(a[i as int] == tags@[i as int]@);
        let mut j: usize = 0;
        while j < wanted.len()
            invariant
                a == texts(tags@),
                b == texts(wanted@),
                i < tags.len(),
                t@ == lowercase(a[i as int]),
                j <= wanted.len(),
                forall|y: int| 0 <= y < j ==> t@ != lowercase(#[trigger] b[y]),
            decreases wanted.len() - j,
        {
            assert(b[j as int] == wanted@[j as int]@);
            if t == text::to_lowercase(&wanted[j]) {
                assert(lowercase(a[i as int]) == lowercase(b[j as int]));
                return true;
            }
            j += 1;
        }
        i += 1;
    }
    false
}

/// Whether a node meets the conditions of a query.
pub fn meets_filter(n: &Node, f: &QueryFilter) -> (r: bool)
    ensures
        r == meets(n@, f@),
{
    if let Some(q) = &f.q {
        if !text::contains(&text::to_lowercase(&n.inhalt), &text::to_lowercase(q)) {
            return false;
        }
    }
    if let Some(t) = f.typ {
        if n.typ != t {
            return false;
        }
    }
    if let Some(s) = &f.status {
        if !(n.status == *s) {
            return false;
        }
    }
    assert(texts(f.tags@).len() == f.tags@.len());
    if f.tags.len() > 0 && !has_tag(&n.tags, &f.tags) {
        return false;
    }
    true
}

/// Whether the node at each position is what the query asks for.
pub(crate) fn find_matches(graph: &KnowledgeGraph, f: &QueryFilter) -> (r: Vec<bool>)
    ensures
        r@.len() == graph@.nodes.len(),
        forall|i: int| 0 <= i < r@.len() ==> #[trigger] r@[i] == is_match(graph@, f@, i),
{
    let ghost g = graph@;
    let mut met: Vec<bool> = Vec::new();
    let mut i: usize = 0;
    while i < graph.nodes.len()
        invariant
            g == graph@,
            i <= graph.nodes.len(),
            met.len() == i,
            forall|k: int| 0 <= k < i ==> #[trigger] met@[k] == meets(g.nodes[k], f@),
        decreases graph.nodes.len() - i,
    {
        assert(g.nodes[i as int] == graph.nodes@[i as int]@);
        met.push(meets_filter(&graph.nodes[i], f));
        i += 1;
    }
    let mut out: Vec<bool> = Vec::new();
    let mut i: usize = 0;
    while i < graph.nodes.len()
        invariant
            g == graph@,
            i <= graph.nodes.len(),
            met.len() == graph.nodes.len(),
            forall|k: int| 0 <= k < met.len() ==> #[trigger] met@[k] == meets(g.nodes[k], f@),
            out.len() == i,
            forall|k: int| 0 <= k < i ==> #[trigger] out@[k] == is_match(g, f@, k),
        decreases graph.nodes.len() - i,
    {
        assert(g.nodes[i as int] == graph.nodes@[i as int]@);
        let mut hit: bool = met[i];
        if hit {
            if let Some(l) = f.limit {
                let mut before: usize = 0;
                let mut k: usize = 0;
                while k < graph.nodes.len()
                    invariant
                        g == graph@,
                        i < graph.nodes.len(),
                        met.len() == graph.nodes.len(),
                        forall|k: int|
                            0 <= k < met.len() ==> #[trigger] met@[k] == meets(g.nodes[k], f@),
                        k <= graph.nodes.len(),
                        before <= k,
                        before == ahead_of(g.nodes, f@, i as int, k as int),
                    decreases graph.nodes.len() - k,
                {
                    assert(g.nodes[k as int] == graph.nodes@[k as int]@);
                    assert(g.nodes[i as int] == graph.nodes@[i as int]@);
                    if k != i && met[k] {
                        let a: Score = graph.nodes[k].score;
                        let b: Score = graph.nodes[i].score;
                        if a.exceeds(&b) || (!b.exceeds(&a) && k < i) {
                            before += 1;
                        }
                    }
                    k += 1;
                }
                hit = before < l;
            }
        }
        assert(hit == is_match(g, f@, i as int));
        out.push(hit);
        i += 1;
    }
    out
}

/// The ids of the matches.
fn match_ids(graph: &KnowledgeGraph, f: &QueryFilter) -> (r: Vec<String>)
    ensures
        forall|x: Seq<char>| #[trigger] texts(r@).contains(x) == match_id(graph@, f@, x),
{
    let ghost g = graph@;
    let hits: Vec<bool> = find_matches(graph, f);
    let mut out: Vec<String> = Vec::new();
    let mut i: usize = 0;
    while i < graph.nodes.len()
        invariant
            g == graph@,
            i <= graph.nodes.len(),
            hits.len() == graph.nodes.len(),
            forall|k: int| 0 <= k < hits.len() ==> #[trigger] hits@[k] == is_match(g, f@, k),
            forall|x: Seq<char>|
                #[trigger] texts(out@).contains(x) == exists|k: int|
                    0 <= k < i && #[trigger] is_match(g, f@, k) && g.nodes[k].id == x,
        decreases graph.nodes.len() - i,
    {
        assert(g.nodes[i as int] == graph.nodes@[i as int]@);
        assert(hits@[i as int] == is_match(g, f@, i as int));
        let ghost old_out = texts(out@);
        if hits[i] {
            out.push(graph.nodes[i].id.clone());
            assert(texts(out@) =~= old_out.push(g.nodes[i as int].id));
        }
        proof {
            assert forall|x: Seq<char>| #[trigger] texts(out@).contains(x) == exists|k: int|
                0 <= k < i + 1 && #[trigger] is_match(g, f@, k) && g.nodes[k].id == x by {
                if texts(out@).contains(x) {
                    let j = choose|j: int| 0 <= j < texts(out@).len() && texts(out@)[j] == x;
                    if j < old_out.len() {
                        assert(old_out[j] == x);
                        assert(old_out.contains(x));
                        let k = choose|k: int|
                            0 <= k < i && #[trigger] is_match(g, f@, k) && g.nodes[k].id == x;
                        assert(is_match(g, f@, k));
                    } else {
                        assert(is_match(g, f@, i as int));
                    }
                }
                if exists|k: int|
                    0 <= k < i + 1 && #[trigger] is_match(g, f@, k) && g.nodes[k].id == x {
                    let k = choose|k: int|
                        0 <= k < i + 1 && #[trigger] is_match(g, f@, k) && g.nodes[k].id == x;
                    if k < i {
                        assert(old_out.contains(x));
                        let j = choose|j: int| 0 <= j < old_out.len() && old_out[j] == x;
                        assert(texts(out@)[j] == x);
                    } else {
                        assert(texts(out@)[old_out.len() as int] == x);
                    }
                }
            }
        }
        i += 1;
    }
    assert forall|x: Seq<char>| #[trigger] texts(out@).contains(x) == match_id(g, f@, x) by {
        if match_id(g, f@, x) {
            let k = choose|k: int| #[trigger] is_match(g, f@, k) && g.nodes[k].id == x;
            assert(0 <= k < graph.nodes.len() && is_match(g, f@, k));
        }
    }
    out
}

proof fn lemma_texts_push(v: Seq<String>, s: String)
    ensures
        texts(v.push(s)) == texts(v).push(s@),
        forall|x: Seq<char>|
            #[trigger] texts(v.push(s)).contains(x) == (texts(v).contains(x) || x == s@),
{
    let t = texts(v.push(s));
    assert(t =~= texts(v).push(s@));
    assert forall|x: Seq<char>| #[trigger] t.contains(x) == (texts(v).contains(x) || x == s@) by {
        if t.contains(x) {
            let j = choose|j: int| 0 <= j < t.len() && t[j] == x;
            if j < v.len() {
                assert(texts(v)[j] == x);
            }
        }
        if texts(v).contains(x) {
            let j = choose|j: int| 0 <= j < texts(v).len() && texts(v)[j] == x;
            assert(t[j] == x);
        }
        assert(t[v.len() as int] == s@);
    }
}

/// The view that a query gives of a scored graph: the matches and, for context, their
/// direct neighbours, with the edges among them, the questions that they belong to
/// and all documents.
pub fn apply_filter(graph: &KnowledgeGraph, f: &QueryFilter) -> (r: KnowledgeGraph)
    ensures
        r@ == filtered(graph@, f@),
{
    if !f.is_active() {
        return graph.copy();
    }
    let ghost g = graph@;
    let core: Vec<String> = match_ids(graph, f);
    let mut keep: Vec<String> = text::clone_texts(&core);
    let mut i: usize = 0;
    while i < graph.edges.len()
        invariant
            g == graph@,
            forall|x: Seq<char>| #[trigger] texts(core@).contains(x) == match_id(g, f@, x),
            i <= graph.edges.len(),
            forall|x: Seq<char>| #[trigger] texts(keep@).contains(x) == beside(g, f@, x, i as int),
        decreases graph.edges.len() - i,
    {
        assert(g.edges[i as int] == graph.edges@[i as int]@);
        let ghost before = texts(keep@);
        if text::one_of(&graph.edges[i].von, &core) {
            proof {
                lemma_texts_push(keep@, graph.edges@[i as int].zu);
            }
            keep.push(graph.edges[i].zu.clone());
        }
        if text::one_of(&graph.edges[i].zu, &core) {
            proof {
                lemma_texts_push(keep@, graph.edges@[i as int].von);
            }
            keep.push(graph.edges[i].von.clone());
        }
        proof {
            assert forall|x: Seq<char>| #[trigger] texts(keep@).contains(x) == beside(
                g,
                f@,
                x,
                i + 1,
            ) by {
                assert(before.contains(x) == beside(g, f@, x, i as int));
                lemma_beside_step(g, f@, x, i as int);
            }
        }
        i += 1;
    }
    let ghost p = |id: Seq<char>| in_view(g, f@, id);
    restrict(graph, &keep, Ghost(p))
}

/// The id belongs to a match or to a neighbour of one along the first `n` edges.
spec fn beside(g: GraphView, f: FilterView, id: Seq<char>, n: int) -> bool {
    ||| match_id(g, f, id)
    ||| exists|k: int|
        0 <= k < n && k < g.edges.len() && (((#[trigger] g.edges[k]).zu == id && match_id(
            g,
            f,
            g.edges[k].von,
        )) || (g.edges[k].von == id && match_id(g, f, g.edges[k].zu)))
}

proof fn lemma_beside_step(g: GraphView, f: FilterView, x: Seq<char>, i: int)
    requires
        0 <= i < g.edges.len(),
    ensures
        beside(g, f, x, i + 1) == (beside(g, f, x, i) || (g.edges[i].zu == x && match_id(
            g,
            f,
            g.edges[i].von,
        )) || (g.edges[i].von == x && match_id(g, f, g.edges[i].zu))),
{
    if beside(g, f, x, i) && !match_id(g, f, x) {
        let k = choose|k: int|
            0 <= k < i && k < g.edges.len() && (((#[trigger] g.edges[k]).zu == x && match_id(
                g,
                f,
                g.edges[k].von,
            )) || (g.edges[k].von == x && match_id(g, f, g.edges[k].zu)));
        assert(0 <= k < i + 1);
    }
}

// ---- neighbourhoods ----

/// The id is at most `depth` edges away, in either direction, from one of `ids`.
pub open spec fn near(g: GraphView, ids: Seq<Seq<char>>, depth: nat, id: Seq<char>) -> bool
    decreases depth,
{
    if depth == 0 {
        ids.contains(id)
    } else {
        let d = (depth - 1) as nat;
        ||| near(g, ids, d, id)
        ||| exists|k: int|
            0 <= k < g.edges.len() && (((#[trigger] g.edges[k]).zu == id && near(
                g,
                ids,
                d,
                g.edges[k].von,
            )) || (g.edges[k].von == id && near(g, ids, d, g.edges[k].zu)))
    }
}

/// One hop along the first `n` edges from what is near.
spec fn hop(g: GraphView, ids: Seq<Seq<char>>, d: nat, id: Seq<char>, n: int) -> bool {
    ||| near(g, ids, d, id)
    ||| exists|k: int|
        0 <= k < n && k < g.edges.len() && (((#[trigger] g.edges[k]).zu == id && near(
            g,
            ids,
            d,
            g.edges[k].von,
        )) || (g.edges[k].von == id && near(g, ids, d, g.edges[k].zu)))
}

proof fn lemma_hop_step(g: GraphView, ids: Seq<Seq<char>>, d: nat, x: Seq<char>, i: int)
    requires
        0 <= i < g.edges.len(),
    ensures
        hop(g, ids, d, x, i + 1) == (hop(g, ids, d, x, i) || (g.edges[i].zu == x && near(
            g,
            ids,
            d,
            g.edges[i].von,
        )) || (g.edges[i].von == x && near(g, ids, d, g.edges[i].zu))),
{
    if hop(g, ids, d, x, i) && !near(g, ids, d, x) {
        let k = choose|k: int|
            0 <= k < i && k < g.edges.len() && (((#[trigger] g.edges[k]).zu == x && near(
                g,
                ids,
                d,
                g.edges[k].von,
            )) || (g.edges[k].von == x && near(g, ids, d, g.edges[k].zu)));
        assert(0 <= k < i + 1);
    }
}

/// Who asks for more hops sees no less, and always the nodes asked for.
pub proof fn farther_sees_more(g: GraphView, ids: Seq<Seq<char>>, d: nat, e: nat, id: Seq<char>)
    requires
        d <= e,
    ensures
        near(g, ids, d, id) ==> near(g, ids, e, id),
        ids.contains(id) ==> near(g, ids, d, id),
    decreases e,
{
    if d < e {
        farther_sees_more(g, ids, d, (e - 1) as nat, id);
    } else if d > 0 {
        farther_sees_more(g, ids, (d - 1) as nat, (d - 1) as nat, id);
    }
}

/// Where one more hop adds nothing, no further one does.
proof fn lemma_near_settled(g: GraphView, ids: Seq<Seq<char>>, d: nat, e: nat)
    requires
        d <= e,
        forall|x: Seq<char>| #[trigger] near(g, ids, d + 1, x) == near(g, ids, d, x),
    ensures
        forall|x: Seq<char>| #[trigger] near(g, ids, e, x) == near(g, ids, d, x),
    decreases e - d,
{
    if e > d {
        let m = (e - 1) as nat;
        lemma_near_settled(g, ids, d, m);
        assert forall|x: Seq<char>| #[trigger] near(g, ids, e, x) == near(g, ids, d, x) by {
            assert(near(g, ids, m, x) == near(g, ids, d, x));
            assert(near(g, ids, d + 1, x) == near(g, ids, d, x));
            if near(g, ids, e, x) && !near(g, ids, m, x) {
                let k = choose|k: int|
                    0 <= k < g.edges.len() && (((#[trigger] g.edges[k]).zu == x && near(
                        g,
                        ids,
                        m,
                        g.edges[k].von,
                    )) || (g.edges[k].von == x && near(g, ids, m, g.edges[k].zu)));
                assert(near(g, ids, m, g.edges[k].von) == near(g, ids, d, g.edges[k].von));
                assert(near(g, ids, m, g.edges[k].zu) == near(g, ids, d, g.edges[k].zu));
                assert(near(g, ids, d + 1, x));
            }
        }
    }
}

/// The part of a graph around some nodes, up to `depth` hops along edges in either
/// direction.
pub open spec fn neighbourhood(g: GraphView, ids: Seq<Seq<char>>, depth: nat) -> GraphView {
    restricted(g, |id: Seq<char>| near(g, ids, depth, id))
}

/// One more hop from the listed ids. Tells whether it added any.
fn widen(
    graph: &KnowledgeGraph,
    keep: &mut Vec<String>,
    Ghost(ids): Ghost<Seq<Seq<char>>>,
    Ghost(d): Ghost<nat>,
) -> (added: bool)
    requires
        forall|x: Seq<char>|
            #[trigger] texts(old(keep)@).contains(x) == near(graph@, ids, d, x),
    ensures
        forall|x: Seq<char>|
            #[trigger] texts(final(keep)@).contains(x) == near(graph@, ids, d + 1, x),
        !added ==> forall|x: Seq<char>|
            #[trigger] near(graph@, ids, d + 1, x) == near(graph@, ids, d, x),
{
    let ghost g = graph@;
    let base: Vec<String> = text::clone_texts(keep);
    let mut added: bool = false;
    let mut i: usize = 0;
    while i < graph.edges.len()
        invariant
            g == graph@,
            forall|x: Seq<char>| #[trigger] texts(base@).contains(x) == near(g, ids, d, x),
            i <= graph.edges.len(),
            forall|x: Seq<char>|
                #[trigger] texts(keep@).contains(x) == hop(g, ids, d, x, i as int),
            !added ==> texts(keep@) == texts(base@),
        decreases graph.edges.len() - i,
    {
        assert(g.edges[i as int] == graph.edges@[i as int]@);
        let ghost before = texts(keep@);
        let e: &Edge = &graph.edges[i];
        if text::one_of(&e.von, &base) && !text::one_of(&e.zu, keep) {
            proof {
                lemma_texts_push(keep@, e.zu);
            }
            keep.push(e.zu.clone());
            added = true;
        }
        if text::one_of(&e.zu, &base) && !text::one_of(&e.von, keep) {
            proof {
                lemma_texts_push(keep@, e.von);
            }
            keep.push(e.von.clone());
            added = true;
        }
        proof {
            assert forall|x: Seq<char>| #[trigger] texts(keep@).contains(x) == hop(
                g,
                ids,
                d,
                x,
                i + 1,
            ) by {
                assert(before.contains(x) == hop(g, ids, d, x, i as int));
                lemma_hop_step(g, ids, d, x, i as int);
            }
        }
        i += 1;
    }
    assert forall|x: Seq<char>| #[trigger] texts(keep@).contains(x) == near(g, ids, d + 1, x) by {
        assert(hop(g, ids, d, x, g.edges.len() as int) == near(g, ids, d + 1, x));
    }
    if !added {
        assert forall|x: Seq<char>| #[trigger] near(g, ids, d + 1, x) == near(g, ids, d, x) by {
            assert(texts(keep@).contains(x) == near(g, ids, d + 1, x));
            assert(texts(base@).contains(x) == near(g, ids, d, x));
        }
    }
    added
}

/// The part of a graph around some nodes, in full detail.
pub fn get_subgraph(graph: &KnowledgeGraph, ids: &Vec<String>, depth: usize) -> (r: KnowledgeGraph)
    ensures
        r@ == neighbourhood(graph@, texts(ids@), depth as nat),
{
    let ghost g = graph@;
    let ghost seeds = texts(ids@);
    let mut keep: Vec<String> = text::clone_texts(ids);
    let mut d: usize = 0;
    let mut settled: bool = false;
    while d < depth && !settled
        invariant
            g == graph@,
            seeds == texts(ids@),
            d <= depth,
            forall|x: Seq<char>| #[trigger] texts(keep@).contains(x) == near(g, seeds, d as nat, x),
            settled ==> forall|x: Seq<char>|
                #[trigger] near(g, seeds, depth as nat, x) == near(g, seeds, d as nat, x),
        decreases depth - d,
    {
        let added: bool = widen(graph, &mut keep, Ghost(seeds), Ghost(d as nat));
        if !added {
            settled = true;
            proof {
                lemma_near_settled(g, seeds, d as nat, depth as nat);
                assert forall|x: Seq<char>| #[trigger] near(g, seeds, depth as nat, x) == near(
                    g,
                    seeds,
                    d as nat + 1,
                    x,
                ) by {
                    assert(near(g, seeds, d as nat + 1, x) == near(g, seeds, d as nat, x));
                }
            }
        }
        d += 1;
    }
    let ghost p = |id: Seq<char>| near(g, seeds, depth as nat, id);
    assert forall|x: Seq<char>| #[trigger] texts(keep@).contains(x) == p(x) by {
        assert(near(g, seeds, depth as nat, x) == near(g, seeds, d as nat, x));
    }
    restrict(graph, &keep, Ghost(p))
}

// ---- what holds of every view ----

/// Every edge joins two nodes of the graph.
pub open spec fn edges_join_nodes(g: GraphView) -> bool {
    forall|k: int|
        0 <= k < g.edges.len() ==> g.has_node((#[trigger] g.edges[k]).von) && g.has_node(
            g.edges[k].zu,
        )
}

/// In a part of a graph whose edges join nodes, the edges join nodes of the part, and
/// every question has a node of the part that belongs to it.
pub proof fn parts_are_joined(g: GraphView, keep: spec_fn(Seq<char>) -> bool)
    requires
        edges_join_nodes(g),
    ensures
        edges_join_nodes(restricted(g, keep)),
        forall|i: int|
            0 <= i < restricted(g, keep).fragen.len() ==> asked(
                restricted(g, keep).nodes,
                (#[trigger] restricted(g, keep).fragen[i]).id,
            ),
{
    let r = restricted(g, keep);
    let np = |n: NodeView| keep(n.id);
    let ep = |e: EdgeView| keep(e.von) && keep(e.zu);
    lemma_filter_sound(g.edges, ep);
    lemma_filter_sound(g.fragen, |f: FrageView| asked(r.nodes, f.id));
    assert forall|k: int| 0 <= k < r.edges.len() implies r.has_node((#[trigger] r.edges[k]).von)
        && r.has_node(r.edges[k].zu) by {
        let e = r.edges[k];
        assert(ep(g.edges.filter(ep)[k]));
        assert(g.edges.contains(e));
        let j = choose|j: int| 0 <= j < g.edges.len() && g.edges[j] == e;
        assert(g.has_node(g.edges[j].von));
        lemma_kept_node(g, keep, e.von);
        lemma_kept_node(g, keep, e.zu);
    }
}

proof fn lemma_kept_node(g: GraphView, keep: spec_fn(Seq<char>) -> bool, id: Seq<char>)
    requires
        g.has_node(id),
        keep(id),
    ensures
        restricted(g, keep).has_node(id),
{
    let np = |n: NodeView| keep(n.id);
    let i = choose|i: int| 0 <= i < g.nodes.len() && (#[trigger] g.nodes[i]).id == id;
    assert(np(g.nodes[i]));
    lemma_filter_complete(g.nodes, np, i);
    let r = restricted(g, keep);
    let k = choose|k: int| 0 <= k < r.nodes.len() && r.nodes[k] == g.nodes[i];
    assert(r.nodes[k].id == id);
}

/// A match is never passed over for a lower one: where the scores are numbers, a node
/// that meets the query and comes before a match is a match too.
pub proof fn better_nodes_match_too(g: GraphView, f: FilterView, i: int, k: int)
    requires
        is_match(g, f, i),
        0 <= k < g.nodes.len(),
        meets(g.nodes[k], f),
        ahead(g.nodes[k].score, k, g.nodes[i].score, i),
        forall|j: int| 0 <= j < g.nodes.len() ==> !(#[trigger] g.nodes[j]).score.is_nan(),
    ensures
        is_match(g, f, k),
{
    if k != i {
        lemma_ahead_fewer(g.nodes, f, i, k, g.nodes.len() as int);
    }
}

proof fn lemma_ahead_fewer(nodes: Seq<NodeView>, f: FilterView, i: int, k: int, n: int)
    requires
        0 <= i < nodes.len(),
        0 <= k < nodes.len(),
        i != k,
        meets(nodes[k], f),
        ahead(nodes[k].score, k, nodes[i].score, i),
        0 <= n <= nodes.len(),
        forall|j: int| 0 <= j < nodes.len() ==> !(#[trigger] nodes[j]).score.is_nan(),
    ensures
        ahead_of(nodes, f, k, n) <= ahead_of(nodes, f, i, n),
        n > k ==> ahead_of(nodes, f, k, n) < ahead_of(nodes, f, i, n),
    decreases n,
{
    if n > 0 {
        lemma_ahead_fewer(nodes, f, i, k, n - 1);
        let a = nodes[n - 1].score;
        assert(!nodes[n - 1].score.is_nan() && !nodes[k].score.is_nan()
            && !nodes[i].score.is_nan());
    }
}

proof fn lemma_ranks_differ(g: GraphView, f: FilterView, i: int, k: int)
    requires
        0 <= i < g.nodes.len(),
        0 <= k < g.nodes.len(),
        i != k,
        meets(g.nodes[i], f),
        meets(g.nodes[k], f),
        forall|j: int| 0 <= j < g.nodes.len() ==> !(#[trigger] g.nodes[j]).score.is_nan(),
    ensures
        ahead_of(g.nodes, f, i, g.nodes.len() as int) != ahead_of(
            g.nodes,
            f,
            k,
            g.nodes.len() as int,
        ),
{
    let n = g.nodes.len() as int;
    assert(!g.nodes[i].score.is_nan() && !g.nodes[k].score.is_nan());
    if ahead(g.nodes[k].score, k, g.nodes[i].score, i) {
        lemma_ahead_fewer(g.nodes, f, i, k, n);
    } else {
        lemma_ahead_fewer(g.nodes, f, k, i, n);
    }
}

/// The nodes ahead of one are among those that meet the query, which it is not.
proof fn lemma_ahead_bounded(nodes: Seq<NodeView>, f: FilterView, i: int, n: int, all: Seq<int>)
    requires
        0 <= n <= nodes.len(),
        all.no_duplicates(),
        forall|x: int| 0 <= x < all.len() ==> 0 <= #[trigger] all[x] < nodes.len(),
        forall|k: int| 0 <= k < n && k != i && meets(nodes[k], f) ==> #[trigger] all.contains(k),
        forall|x: int| 0 <= x < all.len() ==> #[trigger] all[x] < n && all[x] != i,
    ensures
        ahead_of(nodes, f, i, n) <= all.len(),
    decreases n,
{
    if n > 0 {
        let k = n - 1;
        if all.contains(k) {
            let x = choose|x: int| 0 <= x < all.len() && all[x] == k;
            let rest = all.remove(x);
            assert forall|y: int| 0 <= y < rest.len() implies 0 <= #[trigger] rest[y] < n - 1
                && rest[y] != i by {
                if y < x {
                    assert(rest[y] == all[y]);
                } else {
                    assert(rest[y] == all[y + 1]);
                }
            }
            assert(rest.no_duplicates());
            assert forall|j: int| 0 <= j < n - 1 && j != i && meets(nodes[j], f) implies
                #[trigger] rest.contains(j) by {
                assert(all.contains(j));
                let y = choose|y: int| 0 <= y < all.len() && all[y] == j;
                if y < x {
                    assert(rest[y] == j);
                } else {
                    assert(rest[y - 1] == j);
                }
            }
            lemma_ahead_bounded(nodes, f, i, n - 1, rest);
        } else {
            assert forall|y: int| 0 <= y < all.len() implies #[trigger] all[y] < n - 1 && all[y]
                != i by {
                assert(all.contains(all[y]));
            }
            lemma_ahead_bounded(nodes, f, i, n - 1, all);
        }
    }
}

/// The limit is used up: where the scores are numbers, as many nodes match as meet the
/// conditions, or as the limit allows, whichever is fewer. `at` are the positions of the
/// matches, `all` those of the nodes that meet the conditions.
pub proof fn matches_fill_the_limit(g: GraphView, f: FilterView, at: Seq<int>, all: Seq<int>)
    requires
        at.no_duplicates(),
        forall|i: int| #[trigger] at.contains(i) <==> is_match(g, f, i),
        all.no_duplicates(),
        forall|i: int| #[trigger]
            all.contains(i) <==> 0 <= i < g.nodes.len() && meets(g.nodes[i], f),
        forall|j: int| 0 <= j < g.nodes.len() ==> !(#[trigger] g.nodes[j]).score.is_nan(),
    ensures
        match f.limit {
            Some(l) => at.len() == (if all.len() <= l {
                all.len() as int
            } else {
                l as int
            }),
            None => at.len() == all.len(),
        },
{
    let n = g.nodes.len() as int;
    let p = all.len() as int;
    let ranks = all.map_values(|i: int| ahead_of(g.nodes, f, i, n) as int);
    assert forall|x: int| 0 <= x < p implies 0 <= #[trigger] all[x] < n && meets(
        g.nodes[all[x]],
        f,
    ) by {
        assert(all.contains(all[x]));
    }
    assert forall|x: int| 0 <= x < p implies 0 <= #[trigger] ranks[x] < p by {
        let i = all[x];
        let rest = all.remove(x);
        assert forall|y: int| 0 <= y < rest.len() implies 0 <= #[trigger] rest[y] < n && rest[y]
            != i by {
            if y < x {
                assert(rest[y] == all[y]);
            } else {
                assert(rest[y] == all[y + 1]);
            }
        }
        assert(rest.no_duplicates());
        assert forall|j: int| 0 <= j < n && j != i && meets(g.nodes[j], f) implies
            #[trigger] rest.contains(j) by {
            assert(all.contains(j));
            let y = choose|y: int| 0 <= y < all.len() && all[y] == j;
            if y < x {
                assert(rest[y] == j);
            } else {
                assert(rest[y - 1] == j);
            }
        }
        lemma_ahead_bounded(g.nodes, f, i, n, rest);
    }
    assert forall|x: int, y: int| 0 <= x < p && 0 <= y < p && x != y implies ranks[x]
        != ranks[y] by {
        assert(all[x] != all[y]);
        lemma_ranks_differ(g, f, all[x], all[y]);
    }
    let l = match f.limit {
        Some(l) => if p <= l {
            p
        } else {
            l as int
        },
        None => p,
    };
    // A match has a rank below the bound, and each rank below it is a match's.
    let found = at.map_values(|i: int| ahead_of(g.nodes, f, i, n) as int);
    assert forall|x: int| 0 <= x < at.len() implies 0 <= #[trigger] found[x] < l by {
        assert(at.contains(at[x]));
        assert(is_match(g, f, at[x]));
        assert(all.contains(at[x]));
        let y = choose|y: int| 0 <= y < p && all[y] == at[x];
        assert(0 <= ranks[y] < p);
    }
    assert forall|x: int, y: int|
        0 <= x < at.len() && 0 <= y < at.len() && x != y implies found[x] != found[y] by {
        assert(at.contains(at[x]) && at.contains(at[y]));
        assert(is_match(g, f, at[x]) && is_match(g, f, at[y]));
        lemma_ranks_differ(g, f, at[x], at[y]);
    }
    crate::seqs::lemma_bounded_len(found, l);
    let back = Seq::new(
        l as nat,
        |r: int| choose|x: int| 0 <= x < at.len() && #[trigger] found[x] == r,
    );
    assert forall|r: int| 0 <= r < l implies 0 <= #[trigger] back[r] < at.len() && found[back[r]]
        == r by {
        crate::seqs::lemma_all_taken(ranks, r);
        let x = choose|x: int| 0 <= x < p && ranks[x] == r;
        assert(is_match(g, f, all[x]));
        assert(at.contains(all[x]));
        let y = choose|y: int| 0 <= y < at.len() && at[y] == all[x];
        assert(found[y] == r);
    }
    assert forall|a: int, b: int| 0 <= a < l && 0 <= b < l && a != b implies back[a]
        != back[b] by {
        assert(found[back[a]] == a && found[back[b]] == b);
    }
    crate::seqs::lemma_bounded_len(back, at.len() as int);
}

} // verus!

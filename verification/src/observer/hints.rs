//! Hints for a session: what has changed in the graph since it was last told.

use vstd::prelude::*;
use vstd::string::StringExecFns;

use crate::store::model::{GraphView, KnowledgeGraph, Node, NodeView};
use crate::store::observer_hint::{informed, HintState, HintView};
use crate::text;
use crate::text::{joined, less, shortened, texts, trimmed};

verus! {

/// The date is the latest of the nodes; empty where there are none.
pub open spec fn latest(nodes: Seq<NodeView>, datum: Seq<char>) -> bool {
    &&& nodes.len() == 0 ==> datum.len() == 0
    &&& nodes.len() > 0 ==> exists|i: int|
        0 <= i < nodes.len() && (#[trigger] nodes[i]).datum == datum
    &&& forall|i: int| 0 <= i < nodes.len() ==> !less(datum, (#[trigger] nodes[i]).datum)
}

/// The latest date in a graph, from which on changes are reported.
pub fn seed_baseline_datum(graph: &KnowledgeGraph) -> (r: String)
    ensures
        latest(graph@.nodes, r@),
{
    let ghost nodes = graph@.nodes;
    if graph.nodes.len() == 0 {
        return String::new();
    }
    let mut best: usize = 0;
    let mut i: usize = 1;
    proof {
        text::lemma_less_total(nodes[0].datum, nodes[0].datum);
    }
    while i < graph.nodes.len()
        invariant
            nodes == graph@.nodes,
            best < i <= graph.nodes.len(),
            forall|k: int|
                0 <= k < i ==> !less(nodes[best as int].datum, (#[trigger] nodes[k]).datum),
        decreases graph.nodes.len() - i,
    {
        assert(nodes[i as int] == graph.nodes@[i as int]@);
        assert(nodes[best as int] == graph.nodes@[best as int]@);
        if text::is_less(&graph.nodes[best].datum, &graph.nodes[i].datum) {
            let ghost b = best as int;
            proof {
                assert forall|k: int| 0 <= k < i + 1 implies !less(
                    nodes[i as int].datum,
                    (#[trigger] nodes[k]).datum,
                ) by {
                    text::lemma_less_total(nodes[i as int].datum, nodes[i as int].datum);
                    if k < i && less(nodes[i as int].datum, nodes[k].datum) {
                        text::lemma_less_trans(
                            nodes[b].datum,
                            nodes[i as int].datum,
                            nodes[k].datum,
                        );
                    }
                }
            }
            best = i;
        }
        i += 1;
    }
    assert(nodes[best as int] == graph.nodes@[best as int]@);
    graph.nodes[best].datum.clone()
}

/// The node is news for a session: it holds, it is newer than what was reported, it was
/// not recorded by the session itself, and the session was not pointed at it yet.
pub open spec fn is_news(n: NodeView, session: Seq<char>, s: HintView) -> bool {
    &&& n.status == "aktiv"@ || n.status == "gestützt"@
    &&& less(s.last_informed_datum, n.datum)
    &&& n.session_id != Some(session)
    &&& !s.informed_node_ids.contains(n.id)
}

/// The nodes that are news for a session.
pub open spec fn news(g: GraphView, session: Seq<char>, s: HintView) -> Seq<NodeView> {
    g.nodes.filter(|n: NodeView| is_news(n, session, s))
}

/// What the referenced nodes say.
pub open spec fn ref_views(v: Seq<&Node>) -> Seq<NodeView> {
    v.map_values(|n: &Node| n@)
}

fn same_session(n: &Node, session_id: &str) -> (r: bool)
    ensures
        r == (n@.session_id == Some(session_id@)),
{
    match &n.session_id {
        Some(s) => text::same(s, session_id),
        None => false,
    }
}

/// The nodes that are news for a session.
pub fn compute_index_delta<'a>(
    graph: &'a KnowledgeGraph,
    session_id: &str,
    state: &HintState,
) -> (r: Vec<&'a Node>)
    ensures
        ref_views(r@) == news(graph@, session_id@, state@),
{
    let ghost nodes = graph@.nodes;
    let ghost p = |n: NodeView| is_news(n, session_id@, state@);
    let mut out: Vec<&'a Node> = Vec::new();
    let mut i: usize = 0;
    proof {
        reveal(Seq::filter);
        assert(ref_views(out@) =~= nodes.take(0).filter(p));
    }
    while i < graph.nodes.len()
        invariant
            nodes == graph@.nodes,
            p == (|n: NodeView| is_news(n, session_id@, state@)),
            i <= graph.nodes.len(),
            ref_views(out@) == nodes.take(i as int).filter(p),
        decreases graph.nodes.len() - i,
    {
        let n: &'a Node = &graph.nodes[i];
        assert(nodes[i as int] == n@);
        proof {
            crate::seqs::lemma_filter_take(nodes, i as int, p);
        }
        if (text::same(&n.status, "aktiv") || text::same(&n.status, "gestützt"))
            && text::is_less(&state.last_informed_datum, &n.datum) && !same_session(n, session_id)
            && !text::one_of(&n.id, &state.informed_node_ids) {
            let ghost before = out@;
            out.push(n);
            assert(ref_views(out@) =~= ref_views(before).push(n@));
        }
        i += 1;
    }
    assert(nodes.take(nodes.len() as int) =~= nodes);
    out
}

/// A statement as a title.
pub open spec fn title(inhalt: Seq<char>) -> Seq<char> {
    shortened(trimmed(inhalt), 60, "…"@)
}

/// A statement as a title.
pub fn short_title(inhalt: &str) -> (r: String)
    ensures
        r@ == title(inhalt@),
{
    text::shorten(&text::trim(inhalt), 60, "…")
}

/// The line that reports news: their number and the first three titles.
pub open spec fn news_line(delta: Seq<NodeView>) -> Seq<char> {
    "[Wissen] Index aktualisiert: "@ + text::decimal(delta.len())
        + " neue/geänderte Knoten — z. B. "@ + joined(
        (if delta.len() > 3 {
            delta.take(3)
        } else {
            delta
        }).map_values(|n: NodeView| title(n.inhalt)),
        "; "@,
    ) + (if delta.len() > 3 {
        " …"@
    } else {
        Seq::empty()
    })
}

/// The line that reports news.
pub fn format_delta_hint(delta: &Vec<&Node>) -> (r: String)
    ensures
        r@ == news_line(ref_views(delta@)),
{
    let ghost all = ref_views(delta@);
    let n: usize = if delta.len() > 3 {
        3
    } else {
        delta.len()
    };
    let mut titles: Vec<String> = Vec::new();
    let mut i: usize = 0;
    while i < n
        invariant
            i <= n <= delta.len(),
            titles.len() == i,
            forall|k: int| 0 <= k < i ==> (#[trigger] titles@[k])@ == title(delta@[k]@.inhalt),
        decreases n - i,
    {
        titles.push(short_title(&delta[i].inhalt));
        i += 1;
    }
    let ghost shown = if all.len() > 3 {
        all.take(3)
    } else {
        all
    };
    assert(texts(titles@) =~= shown.map_values(|n: NodeView| title(n.inhalt)));
    let mut out: String = "[Wissen] Index aktualisiert: ".to_owned();
    out.append(&text::number(delta.len() as u64));
    out.append(" neue/geänderte Knoten — z. B. ");
    out.append(&text::join(&titles, "; "));
    if delta.len() > 3 {
        out.append(" …");
    }
    assert(out@ =~= news_line(all));
    out
}

/// The state after a session was pointed at the first `n` nodes of a list.
pub open spec fn informed_all(s: HintView, delta: Seq<NodeView>, n: int) -> HintView
    decreases n,
{
    if n <= 0 {
        s
    } else {
        informed(informed_all(s, delta, n - 1), delta[n - 1].id, delta[n - 1].datum)
    }
}

/// What a pass leaves for a session: hint lines, and what it has then been told.
#[derive(Debug)]
pub struct HintPlan {
    pub lines: Vec<String>,
    pub state: HintState,
    /// The state has to be stored.
    pub save: bool,
}

/// The lines that a pass leaves. The first pass reports no news.
pub open spec fn hint_lines(
    g: GraphView,
    session: Seq<char>,
    s: HintView,
    llm_hint: Seq<char>,
) -> Seq<Seq<char>> {
    (if s.last_informed_datum.len() > 0 && news(g, session, s).len() > 0 {
        seq![news_line(news(g, session, s))]
    } else {
        Seq::empty()
    }) + (if llm_hint.len() > 0 {
        seq!["[Knowledge] "@ + llm_hint]
    } else {
        Seq::empty()
    })
}

/// What a pass leaves for a session. The first pass only notes the latest date; a later
/// one reports the news since, at most once each. The observer's own pointer follows.
pub fn generate_hints(
    graph: &KnowledgeGraph,
    session_id: &str,
    state: HintState,
    llm_hint: &str,
) -> (r: HintPlan)
    ensures
        texts(r.lines@) == hint_lines(graph@, session_id@, state@, llm_hint@),
        state@.last_informed_datum.len() == 0 ==> r.save && r.state@.informed_node_ids
            == state@.informed_node_ids && latest(graph@.nodes, r.state@.last_informed_datum),
        state@.last_informed_datum.len() > 0 ==> {
            let delta = news(graph@, session_id@, state@);
            &&& r.save == (delta.len() > 0)
            &&& r.state@ == informed_all(state@, delta, delta.len() as int)
        },
{
    let ghost before = state@;
    let mut state: HintState = state;
    let mut lines: Vec<String> = Vec::new();
    let mut save: bool = false;
    if state.last_informed_datum.as_str().is_empty() {
        state.last_informed_datum = seed_baseline_datum(graph);
        save = true;
        assert(texts(lines@) =~= Seq::empty());
    } else {
        let delta: Vec<&Node> = compute_index_delta(graph, session_id, &state);
        let ghost all = news(graph@, session_id@, before);
        assert(all.len() == delta@.len());
        if delta.len() > 0 {
            lines.push(format_delta_hint(&delta));
            assert(texts(lines@) =~= seq![news_line(all)]);
            save = true;
        } else {
            assert(texts(lines@) =~= Seq::empty());
        }
        let mut i: usize = 0;
        while i < delta.len()
            invariant
                all == ref_views(delta@),
                i <= delta.len(),
                state@ == informed_all(before, all, i as int),
            decreases delta.len() - i,
        {
            assert(all[i as int] == delta@[i as int]@);
            state.mark_informed(&delta[i].id, &delta[i].datum);
            i += 1;
        }
    }
    let ghost first = texts(lines@);
    if !llm_hint.is_empty() {
        lines.push("[Knowledge] ".to_owned().concat(llm_hint));
        assert(texts(lines@) =~= first + seq!["[Knowledge] "@ + llm_hint@]);
    } else {
        assert(texts(lines@) =~= first + Seq::<Seq<char>>::empty());
    }
    HintPlan { lines, state, save }
}

/// Right after the first pass nothing is news: every node is as old as the date noted.
pub proof fn nothing_new_after_seed(g: GraphView, session: Seq<char>, s: HintView)
    requires
        latest(g.nodes, s.last_informed_datum),
    ensures
        news(g, session, s).len() == 0,
{
    let p = |n: NodeView| is_news(n, session, s);
    crate::seqs::lemma_filter_sound(g.nodes, p);
    if news(g, session, s).len() > 0 {
        let n = g.nodes.filter(p)[0];
        assert(p(g.nodes.filter(p)[0]));
        assert(g.nodes.contains(n));
        let i = choose|i: int| 0 <= i < g.nodes.len() && g.nodes[i] == n;
        assert(!less(s.last_informed_datum, g.nodes[i].datum));
    }
}

/// A session is never told about a node twice: what was reported is no longer news.
pub proof fn reported_is_no_news(g: GraphView, session: Seq<char>, s: HintView, k: int)
    requires
        0 <= k < news(g, session, s).len(),
    ensures
        ({
            let delta = news(g, session, s);
            !is_news(delta[k], session, informed_all(s, delta, delta.len() as int))
        }),
{
    let delta = news(g, session, s);
    lemma_informed_lists(s, delta, delta.len() as int, k);
}

proof fn lemma_informed_lists(s: HintView, delta: Seq<NodeView>, n: int, k: int)
    requires
        0 <= k < n <= delta.len(),
    ensures
        informed_all(s, delta, n).informed_node_ids.contains(delta[k].id),
    decreases n,
{
    let before = informed_all(s, delta, n - 1);
    let after = informed_all(s, delta, n);
    if k < n - 1 {
        lemma_informed_lists(s, delta, n - 1, k);
        let j = choose|j: int|
            0 <= j < before.informed_node_ids.len() && before.informed_node_ids[j] == delta[k].id;
        assert(after.informed_node_ids[j] == delta[k].id);
    } else if !before.informed_node_ids.contains(delta[k].id) {
        assert(after.informed_node_ids[before.informed_node_ids.len() as int] == delta[k].id);
    }
}

} // verus!

//! What is promised of the reports on the knowledge: the hints on its tidiness, the news
//! for a session, the current state and the counts of runs.

use vstd::prelude::*;

use crate::dispatch::{
    dispatched, needs_of, questions, state_reply, AnswerView, FreshView, Needs, Numbers,
};
use crate::ipc::{DecisionView, ReplyView, RequestView};
use crate::laws::merging::{lemma_filter_picks, picked};
use crate::observer::hints::{hint_lines, informed_all, is_news, news};
use crate::store::hygiene::{
    all_hints, begun, competing_hint, competing_hints, conflict_hint, conflict_hints, double_hint,
    double_hints, has_side, hints, is_evidence, loose_evidence, loose_hint, pointed_at,
    quoted_brief, said_again, same_statement,
};
use crate::store::model::{empty_graph, FrageView, GraphView, NodeType, NodeView, QuelleView};
use crate::store::observer_hint::{appended, informed, told_nothing, HintView};
use crate::store::observer_state::first_state;
use crate::store::observer_stats::{is_recent, no_stats, with_run, within, RunRec, StatsView};
use crate::store::state::{
    active_decisions, gives_value, is_active_decision, is_answered, leading, leading_value,
};
use crate::text::{decimal, joined, less, lowercase, shortened, trimmed, white};

verus! {

// ---- the news for a session ----

/// The node holds, is later than what was reported, was not recorded in the session, and
/// was not reported to it.
pub open spec fn is_unheard(n: NodeView, session: Seq<char>, s: HintView) -> bool {
    &&& n.status == "aktiv"@ || n.status == "gestützt"@
    &&& less(s.last_informed_datum, n.datum)
    &&& !(n.session_id matches Some(other) && other == session)
    &&& forall|i: int|
        0 <= i < s.informed_node_ids.len() ==> #[trigger] s.informed_node_ids[i] != n.id
}

/// The news are the nodes that the session has not heard of, in their order.
pub proof fn news_is_what_was_not_heard(g: GraphView, session: Seq<char>, s: HintView) -> (at: Seq<
    int,
>)
    ensures
        picked(g.nodes, news(g, session, s), at),
        forall|j: int| 0 <= j < at.len() ==> is_unheard(g.nodes[#[trigger] at[j]], session, s),
        forall|k: int|
            0 <= k < g.nodes.len() && is_unheard(#[trigger] g.nodes[k], session, s)
                ==> at.contains(k),
{
    let p = |n: NodeView| is_news(n, session, s);
    let at = lemma_filter_picks(g.nodes, p);
    assert forall|k: int| 0 <= k < g.nodes.len() implies is_unheard(
        #[trigger] g.nodes[k],
        session,
        s,
    ) == p(g.nodes[k]) by {
        let ids = s.informed_node_ids;
        if ids.contains(g.nodes[k].id) {
            let i = choose|i: int| 0 <= i < ids.len() && ids[i] == g.nodes[k].id;
            assert(ids[i] == g.nodes[k].id);
        }
        if !is_unheard(g.nodes[k], session, s) && p(g.nodes[k]) {
            let i = choose|i: int| 0 <= i < ids.len() && ids[i] == g.nodes[k].id;
            assert(ids.contains(g.nodes[k].id));
        }
    }
    at
}

/// A session that was never told of the knowledge gets no news; later it gets one line
/// where there are news, with the first three statements. What the observer says follows
/// in a line of its own, where it says anything.
pub proof fn news_come_in_one_line(
    g: GraphView,
    session: Seq<char>,
    s: HintView,
    said: Seq<char>,
)
    ensures
        ({
            let delta = news(g, session, s);
            let lines = hint_lines(g, session, s, said);
            let told = s.last_informed_datum.len() > 0 && delta.len() > 0;
            &&& lines.len() == (if told {
                1int
            } else {
                0
            }) + (if said.len() > 0 {
                1int
            } else {
                0
            })
            &&& said.len() > 0 ==> lines.last() == "[Knowledge] "@ + said
            &&& told && delta.len() <= 3 ==> lines[0] == "[Wissen] Index aktualisiert: "@
                + decimal(delta.len()) + " neue/geänderte Knoten — z. B. "@ + joined(
                Seq::new(delta.len(), |i: int| shortened(trimmed(delta[i].inhalt), 60, "…"@)),
                "; "@,
            )
            &&& told && delta.len() > 3 ==> lines[0] == "[Wissen] Index aktualisiert: "@ + decimal(
                delta.len(),
            ) + " neue/geänderte Knoten — z. B. "@ + joined(
                Seq::new(3, |i: int| shortened(trimmed(delta[i].inhalt), 60, "…"@)),
                "; "@,
            ) + " …"@
        }),
{
    let delta = news(g, session, s);
    let f = |n: NodeView| crate::observer::hints::title(n.inhalt);
    let n: nat = if delta.len() > 3 {
        3
    } else {
        delta.len()
    };
    let shown = Seq::new(n, |i: int| shortened(trimmed(delta[i].inhalt), 60, "…"@));
    assert((if delta.len() > 3 {
        delta.take(3)
    } else {
        delta
    }).map_values(f) =~= shown);
    let line = "[Wissen] Index aktualisiert: "@ + decimal(delta.len())
        + " neue/geänderte Knoten — z. B. "@ + joined(shown, "; "@);
    assert(line + Seq::<char>::empty() =~= line);
    assert(crate::observer::hints::news_line(delta) == line + (if delta.len() > 3 {
        " …"@
    } else {
        Seq::empty()
    }));
}

/// A session that was told of nodes is noted to know these and those that it knew before,
/// each once, and no others; and the latest of their dates.
pub proof fn what_was_told_is_noted(s: HintView, delta: Seq<NodeView>, n: int, id: Seq<char>)
    requires
        0 <= n <= delta.len(),
    ensures
        ({
            let t = informed_all(s, delta, n);
            let datum = t.last_informed_datum;
            &&& t.informed_node_ids.contains(id) <==> s.informed_node_ids.contains(id) || exists|
                k: int,
            |
                0 <= k < n && (#[trigger] delta[k]).id == id
            &&& s.informed_node_ids.no_duplicates() ==> t.informed_node_ids.no_duplicates()
            &&& datum == s.last_informed_datum || exists|k: int|
                0 <= k < n && (#[trigger] delta[k]).datum == datum
        }),
    decreases n,
{
    if n > 0 {
        what_was_told_is_noted(s, delta, n - 1, id);
        let before = informed_all(s, delta, n - 1);
        let after = informed_all(s, delta, n);
        let x = delta[n - 1];
        assert(after == informed(before, x.id, x.datum));
        assert(before.informed_node_ids.push(x.id).last() == x.id);
        assert(before.informed_node_ids.push(x.id).contains(id)
            <==> before.informed_node_ids.contains(id) || x.id == id) by {
            let ids = before.informed_node_ids;
            let more = ids.push(x.id);
            if ids.contains(id) {
                let j = choose|j: int| 0 <= j < ids.len() && ids[j] == id;
                assert(more[j] == id);
            }
            if x.id == id {
                assert(more[ids.len() as int] == id);
            }
            if more.contains(id) {
                let j = choose|j: int| 0 <= j < more.len() && more[j] == id;
                if j < ids.len() {
                    assert(ids[j] == id);
                }
            }
        }
        assert(delta[n - 1].id == x.id);
    }
}

/// A pending hint is a line of its own, and a blank one is none.
pub proof fn pending_hints_are_lines(pending: Seq<char>, hint: Seq<char>)
    ensures
        (forall|i: int| 0 <= i < hint.len() ==> white(#[trigger] hint[i])) ==> appended(
            pending,
            hint,
        ) == pending,
        (exists|i: int| 0 <= i < hint.len() && !white(#[trigger] hint[i])) ==> appended(
            pending,
            hint,
        ) == pending + hint + seq!['\n'],
{
    let ends = crate::laws::values::trimming_takes_white_ends(hint);
    if ends.0 < ends.1 {
        assert(!white(hint[ends.0]));
    }
}

// ---- the counts of runs ----

/// What is recorded of a run: it is added to the recent ones, of which those of the last
/// day stay; those of the last ten minutes, the last hour and the last day are counted;
/// and a pause ends.
pub proof fn runs_are_counted(s: StatsView, now: u64, ops: i64, ok: bool, interval: u64) -> (at: (
    Seq<int>,
    Seq<int>,
    Seq<int>,
    Seq<int>,
))
    requires
        s.total_runs < u64::MAX,
        s.recent.len() < u64::MAX,
    ensures
        ({
            let t = with_run(s, now, ops, ok, interval);
            let all = s.recent.push(RunRec { at: now, ops, ok });
            &&& picked(all, t.recent, at.0)
            &&& forall|i: int| 0 <= i < all.len() ==> (at.0.contains(i) <==> (#[trigger] all[i]).at
                + 86400 >= now)
            &&& t.runs_10m == at.1.len() && at.1.no_duplicates()
            &&& forall|i: int| #[trigger] at.1.contains(i) <==> 0 <= i < t.recent.len()
                && t.recent[i].at + 600 >= now
            &&& t.runs_1h == at.2.len() && at.2.no_duplicates()
            &&& forall|i: int| #[trigger] at.2.contains(i) <==> 0 <= i < t.recent.len()
                && t.recent[i].at + 3600 >= now
            &&& t.runs_24h == at.3.len() && at.3.no_duplicates()
            &&& forall|i: int| #[trigger] at.3.contains(i) <==> 0 <= i < t.recent.len()
                && t.recent[i].at + 86400 >= now
            &&& t.schema == 1
            &&& t.total_runs == s.total_runs + 1
            &&& t.last_run_at == now
            &&& t.last_ops == ops
            &&& t.last_ok == ok
            &&& t.min_interval_secs == interval
            &&& t.updated_at == now
            &&& !t.paused
            &&& t.paused_reason.len() == 0
        }),
{
    let t = with_run(s, now, ops, ok, interval);
    let all = s.recent.push(RunRec { at: now, ops, ok });
    let a = lemma_within(all, now, 86400);
    let b = lemma_within(t.recent, now, 600);
    let c = lemma_within(t.recent, now, 3600);
    let d = lemma_within(t.recent, now, 86400);
    (a, b, c, d)
}

/// Of the runs those that ended at most so long ago count.
proof fn lemma_within(recent: Seq<RunRec>, now: u64, window: u64) -> (at: Seq<int>)
    ensures
        picked(recent, within(recent, now, window), at),
        at.no_duplicates(),
        at.len() <= recent.len(),
        forall|i: int| #[trigger] at.contains(i) <==> 0 <= i < recent.len() && recent[i].at + window
            >= now,
{
    let p = |r: RunRec| is_recent(r, now, window);
    let at = lemma_filter_picks(recent, p);
    assert forall|i: int| #[trigger] at.contains(i) implies 0 <= i < recent.len() && recent[i].at
        + window >= now by {
        let j = choose|j: int| 0 <= j < at.len() && at[j] == i;
        assert(p(recent[at[j]]));
    }
    assert forall|i: int| 0 <= i < recent.len() && recent[i].at + window >= now implies
        #[trigger] at.contains(i) by {
        assert(p(recent[i]));
    }
    crate::seqs::lemma_filter_len(recent, p);
    at
}

/// The count of a window is the number of runs that ended at most so long ago.
pub proof fn windows_reach_back(recent: Seq<RunRec>, now: u64, window: u64) -> (at: Seq<int>)
    ensures
        within(recent, now, window).len() == at.len(),
        at.no_duplicates(),
        forall|i: int| #[trigger] at.contains(i) <==> 0 <= i < recent.len() && recent[i].at + window
            >= now,
        picked(recent, within(recent, now, window), at),
{
    lemma_within(recent, now, window)
}

// ---- the current state ----

/// The node is the first of the best scored among those that give the question a value.
pub open spec fn leads(nodes: Seq<NodeView>, frage: Seq<char>, b: int) -> bool {
    &&& 0 <= b < nodes.len()
    &&& nodes[b].frage_id == Some(frage) && nodes[b].wert is Some
    &&& forall|k: int|
        0 <= k < nodes.len() && (#[trigger] nodes[k]).frage_id == Some(frage) && nodes[k].wert
            is Some ==> !nodes[k].score.above(nodes[b].score)
    &&& forall|k: int|
        0 <= k < b && (#[trigger] nodes[k]).frage_id == Some(frage) && nodes[k].wert is Some
            ==> nodes[b].score.above(nodes[k].score)
}

proof fn lemma_leading(nodes: Seq<NodeView>, frage: Seq<char>, n: int)
    requires
        0 <= n <= nodes.len(),
        forall|j: int| 0 <= j < nodes.len() ==> !(#[trigger] nodes[j]).score.is_nan(),
    ensures
        match leading(nodes, frage, n) {
            Some(b) => {
                &&& 0 <= b < n && gives_value(nodes[b], frage)
                &&& forall|k: int|
                    0 <= k < n && gives_value(#[trigger] nodes[k], frage) ==> !nodes[k].score.above(
                        nodes[b].score,
                    )
                &&& forall|k: int|
                    0 <= k < b && gives_value(#[trigger] nodes[k], frage) ==> nodes[b].score.above(
                        nodes[k].score,
                    )
            },
            None => forall|k: int| 0 <= k < n ==> !gives_value(#[trigger] nodes[k], frage),
        },
    decreases n,
{
    if n > 0 {
        lemma_leading(nodes, frage, n - 1);
        let x = nodes[n - 1];
        assert(!x.score.is_nan());
        if let Some(b) = leading(nodes, frage, n - 1) {
            assert(!nodes[b].score.is_nan());
            let c = leading(nodes, frage, n)->0;
            assert forall|k: int| 0 <= k < n && gives_value(
                #[trigger] nodes[k],
                frage,
            ) implies !nodes[k].score.above(nodes[c].score) && (k < c ==> nodes[c].score.above(
                nodes[k].score,
            )) by {
                assert(!nodes[k].score.is_nan());
            }
        }
    }
}

/// The value of a question is that of the node that leads it, and the question is
/// answered where that node is supported. Without a node that gives a value it has none
/// and is open.
pub proof fn questions_go_by_the_leading_node(nodes: Seq<NodeView>, frage: Seq<char>, b: int)
    requires
        forall|j: int| 0 <= j < nodes.len() ==> !(#[trigger] nodes[j]).score.is_nan(),
    ensures
        leads(nodes, frage, b) ==> leading_value(nodes, frage) == nodes[b].wert && (is_answered(
            nodes,
            frage,
        ) <==> nodes[b].status == "supported"@),
        (forall|k: int|
            0 <= k < nodes.len() ==> !((#[trigger] nodes[k]).frage_id == Some(frage)
                && nodes[k].wert is Some)) ==> leading_value(nodes, frage) is None && !is_answered(
            nodes,
            frage,
        ),
        leading_value(nodes, frage) is Some ==> exists|c: int| #[trigger] leads(nodes, frage, c),
{
    lemma_leading(nodes, frage, nodes.len() as int);
    match leading(nodes, frage, nodes.len() as int) {
        Some(c) => {
            assert(leads(nodes, frage, c));
            assert(gives_value(nodes[c], frage));
            if leads(nodes, frage, b) {
                assert(gives_value(nodes[b], frage));
                assert(b == c);
            }
        },
        None => {
            if leads(nodes, frage, b) {
                assert(gives_value(nodes[b], frage));
            }
        },
    }
}

/// The current state lists the decisions that are active, in their order.
pub proof fn the_state_lists_active_decisions(g: GraphView) -> (at: Seq<int>)
    ensures
        state_reply(g) matches ReplyView::State { decisions, .. } && {
            &&& decisions.len() == at.len()
            &&& forall|j: int|
                0 <= j < at.len() ==> 0 <= #[trigger] at[j] < g.nodes.len() && decisions[j].id
                    == g.nodes[at[j]].id && decisions[j].inhalt == g.nodes[at[j]].inhalt
                    && decisions[j].tags == g.nodes[at[j]].tags
            &&& forall|i: int, j: int| 0 <= i < j < at.len() ==> #[trigger] at[i] < #[trigger] at[j]
            &&& forall|k: int| #[trigger] at.contains(k) <==> 0 <= k < g.nodes.len()
                && g.nodes[k].typ == NodeType::Decision && g.nodes[k].status == "active"@
        },
{
    let p = |n: NodeView| is_active_decision(n);
    let at = lemma_filter_picks(g.nodes, p);
    let found = active_decisions(g);
    let f = |n: NodeView| DecisionView { id: n.id, inhalt: n.inhalt, tags: n.tags };
    assert forall|j: int| 0 <= j < at.len() implies 0 <= #[trigger] at[j] < g.nodes.len()
        && found.map_values(f)[j].id == g.nodes[at[j]].id && found.map_values(f)[j].inhalt
        == g.nodes[at[j]].inhalt && found.map_values(f)[j].tags == g.nodes[at[j]].tags by {
        assert(found[j] == g.nodes[at[j]]);
    }
    assert forall|k: int| #[trigger] at.contains(k) implies 0 <= k < g.nodes.len()
        && g.nodes[k].typ == NodeType::Decision && g.nodes[k].status == "active"@ by {
        let j = choose|j: int| 0 <= j < at.len() && at[j] == k;
        assert(p(g.nodes[at[j]]));
    }
    assert forall|k: int|
        0 <= k < g.nodes.len() && g.nodes[k].typ == NodeType::Decision && g.nodes[k].status
            == "active"@ implies #[trigger] at.contains(k) by {
        assert(p(g.nodes[k]));
    }
    at
}

proof fn lemma_questions(g: GraphView, answered: bool, n: int) -> (at: Seq<int>)
    requires
        0 <= n <= g.fragen.len(),
    ensures
        at.len() == questions(g, answered, n).len(),
        forall|j: int|
            0 <= j < at.len() ==> 0 <= #[trigger] at[j] < n && questions(g, answered, n)[j].id
                == g.fragen[at[j]].id && questions(g, answered, n)[j].frage
                == g.fragen[at[j]].inhalt && questions(g, answered, n)[j].werte
                == g.fragen[at[j]].werte && questions(g, answered, n)[j].fuehrend == leading_value(
                g.nodes,
                g.fragen[at[j]].id,
            ),
        forall|i: int, j: int| 0 <= i < j < at.len() ==> #[trigger] at[i] < #[trigger] at[j],
        forall|k: int| #[trigger] at.contains(k) <==> 0 <= k < n && is_answered(
            g.nodes,
            g.fragen[k].id,
        ) == answered,
    decreases n,
{
    if n <= 0 {
        Seq::empty()
    } else {
        let before = lemma_questions(g, answered, n - 1);
        if is_answered(g.nodes, g.fragen[n - 1].id) == answered {
            let at = before.push(n - 1);
            assert forall|k: int| #[trigger] at.contains(k) <==> 0 <= k < n && is_answered(
                g.nodes,
                g.fragen[k].id,
            ) == answered by {
                if at.contains(k) {
                    let j = choose|j: int| 0 <= j < at.len() && at[j] == k;
                    if j < before.len() {
                        assert(before[j] == k);
                        assert(before.contains(k));
                    }
                }
                if 0 <= k < n - 1 && is_answered(g.nodes, g.fragen[k].id) == answered {
                    assert(before.contains(k));
                    let j = choose|j: int| 0 <= j < before.len() && before[j] == k;
                    assert(at[j] == k);
                }
                assert(at[before.len() as int] == n - 1);
            }
            assert forall|j: int| 0 <= j < at.len() implies 0 <= #[trigger] at[j] < n && questions(
                g,
                answered,
                n,
            )[j].id == g.fragen[at[j]].id && questions(g, answered, n)[j].frage
                == g.fragen[at[j]].inhalt && questions(g, answered, n)[j].werte
                == g.fragen[at[j]].werte && questions(g, answered, n)[j].fuehrend == leading_value(
                g.nodes,
                g.fragen[at[j]].id,
            ) by {
                if j < before.len() {
                    assert(at[j] == before[j]);
                }
            }
            at
        } else {
            before
        }
    }
}

/// The current state lists each question once, among the answered or among the open ones,
/// in their order, with its values and the leading one.
pub proof fn the_state_lists_each_question(g: GraphView) -> (at: (Seq<int>, Seq<int>))
    ensures
        state_reply(g) matches ReplyView::State { open, answered, .. } && {
            &&& open.len() == at.0.len() && answered.len() == at.1.len()
            &&& forall|i: int, j: int|
                0 <= i < j < at.0.len() ==> #[trigger] at.0[i] < #[trigger] at.0[j]
            &&& forall|i: int, j: int|
                0 <= i < j < at.1.len() ==> #[trigger] at.1[i] < #[trigger] at.1[j]
            &&& forall|k: int| #[trigger] at.0.contains(k) <==> 0 <= k < g.fragen.len()
                && !is_answered(g.nodes, g.fragen[k].id)
            &&& forall|k: int| #[trigger] at.1.contains(k) <==> 0 <= k < g.fragen.len()
                && is_answered(g.nodes, g.fragen[k].id)
            &&& forall|j: int|
                0 <= j < at.0.len() ==> 0 <= #[trigger] at.0[j] < g.fragen.len() && open[j].id
                    == g.fragen[at.0[j]].id && open[j].frage == g.fragen[at.0[j]].inhalt
                    && open[j].werte == g.fragen[at.0[j]].werte && open[j].fuehrend
                    == leading_value(g.nodes, g.fragen[at.0[j]].id)
            &&& forall|j: int|
                0 <= j < at.1.len() ==> 0 <= #[trigger] at.1[j] < g.fragen.len() && answered[j].id
                    == g.fragen[at.1[j]].id && answered[j].frage == g.fragen[at.1[j]].inhalt
                    && answered[j].werte == g.fragen[at.1[j]].werte && answered[j].fuehrend
                    == leading_value(g.nodes, g.fragen[at.1[j]].id)
        },
{
    let n = g.fragen.len() as int;
    let a = lemma_questions(g, false, n);
    let b = lemma_questions(g, true, n);
    (a, b)
}

// ---- requests ----

/// A ping is answered with the project, whether it is enabled or not; the current state,
/// the documents and the rest only where it is enabled; and what is no request is refused.
pub proof fn requests_are_told_apart(
    r: RequestView,
    enabled: bool,
    numbers: Numbers,
    g: GraphView,
    documents: Seq<QuelleView>,
    f: FreshView,
)
    ensures
        ({
            let d = dispatched(r, enabled, numbers, g, documents, f);
            &&& r.op == "ping"@ ==> d.answer == AnswerView::Ready(
                ReplyView::Pong { project: r.project_dir },
            )
            &&& r.op == "current_state"@ && enabled ==> d.answer == AnswerView::Ready(
                state_reply(g),
            )
            &&& r.op == "list_documents"@ && enabled ==> d.answer == AnswerView::Ready(
                ReplyView::Documents { documents },
            )
            &&& r.op != "ping"@ && !enabled ==> d.answer == AnswerView::Refused(
                "knowledge is disabled for this project"@,
            )
            &&& enabled && r.op != "ping"@ && r.op != "query"@ && r.op != "get"@ && r.op
                != "record"@ && r.op != "link"@ && r.op != "merge"@ && r.op != "add_fact"@ && r.op
                != "list_documents"@ && r.op != "update"@ && r.op != "current_state"@ ==> d.answer
                == AnswerView::Refused("unknown op: "@ + r.op)
            &&& r.op == "ping"@ || r.op == "current_state"@ || r.op == "list_documents"@ || !enabled
                ==> d.graph.nodes == g.nodes && d.graph.edges == g.edges && d.graph.fragen
                == g.fragen && !d.changed
        }),
{
    crate::laws::requests::lemma_op_names();
}

/// Where a request is worked on the graph, or on the documents, they are needed.
pub proof fn requests_need_what_they_read(
    r: RequestView,
    enabled: bool,
    numbers: Numbers,
    g: GraphView,
    h: GraphView,
    documents: Seq<QuelleView>,
    others: Seq<QuelleView>,
    f: FreshView,
)
    ensures
        needs_of(r.op, enabled) == Needs::Nothing ==> dispatched(
            r,
            enabled,
            numbers,
            g,
            documents,
            f,
        ).answer == dispatched(r, enabled, numbers, h, others, f).answer,
        needs_of(r.op, enabled) == Needs::Graph ==> dispatched(
            r,
            enabled,
            numbers,
            g,
            documents,
            f,
        ) == dispatched(r, enabled, numbers, g, others, f),
        needs_of(r.op, enabled) == Needs::Documents <==> enabled && r.op == "list_documents"@,
        !enabled || r.op == "ping"@ ==> needs_of(r.op, enabled) == Needs::Nothing,
{
    crate::laws::requests::lemma_op_names();
}

// ---- hints on tidiness ----

/// The node is a piece of evidence, and no edge leads to it.
pub open spec fn stands_alone(g: GraphView, n: NodeView) -> bool {
    &&& n.typ == NodeType::Observation || n.typ == NodeType::Research || n.typ
        == NodeType::Hypothesis
    &&& forall|k: int| 0 <= k < g.edges.len() ==> (#[trigger] g.edges[k]).zu != n.id
}

/// Two pieces of evidence or more that nothing leads to give one hint, with their number
/// and the first four; fewer give none.
pub proof fn evidence_that_stands_alone_is_named(g: GraphView) -> (at: Seq<int>)
    ensures
        forall|i: int, j: int| 0 <= i < j < at.len() ==> #[trigger] at[i] < #[trigger] at[j],
        forall|k: int| #[trigger] at.contains(k) <==> 0 <= k < g.nodes.len() && stands_alone(
            g,
            g.nodes[k],
        ),
        at.len() < 2 ==> loose_hint(g).len() == 0,
        2 <= at.len() <= 4 ==> loose_hint(g) == seq![
            decimal(at.len()) + " pieces of evidence are not attached to any insight ("@ + joined(
                Seq::new(
                    at.len(),
                    |j: int|
                        "\""@ + shortened(trimmed(g.nodes[at[j]].inhalt), 50, "…"@) + "\""@,
                ),
                ", "@,
            ) + ""@
                + "). Check whether they can be bundled into an insight (record_knowledge typ=insight, then link to the evidence)."@,
        ],
        at.len() > 4 ==> loose_hint(g) == seq![
            decimal(at.len()) + " pieces of evidence are not attached to any insight ("@ + joined(
                Seq::new(
                    4,
                    |j: int|
                        "\""@ + shortened(trimmed(g.nodes[at[j]].inhalt), 50, "…"@) + "\""@,
                ),
                ", "@,
            ) + ", …"@
                + "). Check whether they can be bundled into an insight (record_knowledge typ=insight, then link to the evidence)."@,
        ],
{
    let p = |n: NodeView| is_evidence(n) && !pointed_at(g.edges, n.id);
    let at = lemma_filter_picks(g.nodes, p);
    let loose = loose_evidence(g);
    assert forall|n: NodeView| stands_alone(g, n) == #[trigger] p(n) by {
        if pointed_at(g.edges, n.id) {
            let k = choose|k: int| 0 <= k < g.edges.len() && (#[trigger] g.edges[k]).zu == n.id;
            assert(g.edges[k].zu == n.id);
        }
    }
    assert forall|k: int| #[trigger] at.contains(k) implies 0 <= k < g.nodes.len() && stands_alone(
        g,
        g.nodes[k],
    ) by {
        let j = choose|j: int| 0 <= j < at.len() && at[j] == k;
        assert(p(g.nodes[at[j]]));
    }
    assert forall|k: int| 0 <= k < g.nodes.len() && stands_alone(g, g.nodes[k]) implies
        #[trigger] at.contains(k) by {
        assert(p(g.nodes[k]));
    }
    let f = |n: NodeView| quoted_brief(n);
    let n: nat = if at.len() > 4 {
        4
    } else {
        at.len()
    };
    let shown = Seq::new(
        n,
        |j: int| "\""@ + shortened(trimmed(g.nodes[at[j]].inhalt), 50, "…"@) + "\""@,
    );
    assert forall|j: int| 0 <= j < n implies quoted_brief(#[trigger] loose[j]) == shown[j] by {
        assert(loose[j] == g.nodes[at[j]]);
    }
    assert((if loose.len() > 4 {
        loose.take(4)
    } else {
        loose
    }).map_values(f) =~= shown);
    at
}

proof fn lemma_competing(fragen: Seq<FrageView>, n: int) -> (at: Seq<int>)
    requires
        0 <= n <= fragen.len(),
    ensures
        at.len() == competing_hints(fragen, n).len(),
        forall|i: int, j: int| 0 <= i < j < at.len() ==> #[trigger] at[i] < #[trigger] at[j],
        forall|j: int|
            0 <= j < at.len() ==> 0 <= #[trigger] at[j] < n && competing_hints(fragen, n)[j]
                == competing_hint(fragen[at[j]]) && fragen[at[j]].werte.len() >= 2,
        forall|k: int| 0 <= k < n && fragen[k].werte.len() >= 2 ==> #[trigger] at.contains(k),
    decreases n,
{
    if n <= 0 {
        Seq::empty()
    } else {
        let before = lemma_competing(fragen, n - 1);
        if fragen[n - 1].werte.len() >= 2 {
            let at = before.push(n - 1);
            lemma_longer(before, n - 1);
            assert forall|j: int| 0 <= j < at.len() implies 0 <= #[trigger] at[j] < n
                && competing_hints(fragen, n)[j] == competing_hint(fragen[at[j]])
                && fragen[at[j]].werte.len() >= 2 by {
                if j < before.len() {
                    assert(at[j] == before[j]);
                }
            }
            assert forall|k: int| 0 <= k < n && fragen[k].werte.len() >= 2 implies
                #[trigger] at.contains(k) by {
                if k < n - 1 {
                    assert(before.contains(k));
                }
            }
            at
        } else {
            before
        }
    }
}

proof fn lemma_longer(at: Seq<int>, x: int)
    ensures
        forall|k: int| at.contains(k) ==> #[trigger] at.push(x).contains(k),
        at.push(x).contains(x),
{
    assert forall|k: int| at.contains(k) implies #[trigger] at.push(x).contains(k) by {
        let j = choose|j: int| 0 <= j < at.len() && at[j] == k;
        assert(at.push(x)[j] == k);
    }
    assert(at.push(x)[at.len() as int] == x);
}

/// Each question with two values or more gives a hint, and no other question does.
pub proof fn competing_values_are_named(fragen: Seq<FrageView>) -> (at: Seq<int>)
    ensures
        at.len() == competing_hints(fragen, fragen.len() as int).len(),
        forall|i: int, j: int| 0 <= i < j < at.len() ==> #[trigger] at[i] < #[trigger] at[j],
        forall|j: int|
            0 <= j < at.len() ==> 0 <= #[trigger] at[j] < fragen.len() && competing_hints(
                fragen,
                fragen.len() as int,
            )[j] == "Question \""@ + shortened(trimmed(fragen[at[j]].inhalt), 50, "…"@)
                + "\" has competing values ("@ + joined(fragen[at[j]].werte, " vs "@)
                + "). If one answer holds, record it (weight/insight); otherwise it stays disputed."@
                && fragen[at[j]].werte.len() >= 2,
        forall|k: int|
            0 <= k < fragen.len() && fragen[k].werte.len() >= 2 ==> #[trigger] at.contains(k),
{
    lemma_competing(fragen, fragen.len() as int)
}

/// The edge is the first from its node, the node is known, and both a supporting and a
/// contradicting edge begin there.
pub open spec fn shows_a_conflict(g: GraphView, k: int) -> bool {
    &&& 0 <= k < g.edges.len()
    &&& forall|m: int| 0 <= m < k ==> (#[trigger] g.edges[m]).von != g.edges[k].von
    &&& exists|m: int|
        0 <= m < g.edges.len() && (#[trigger] g.edges[m]).von == g.edges[k].von
            && (g.edges[m].polaritaet == "contradicts"@ || g.edges[m].polaritaet
            == "widerspricht"@)
    &&& exists|m: int|
        0 <= m < g.edges.len() && (#[trigger] g.edges[m]).von == g.edges[k].von
            && g.edges[m].polaritaet != "contradicts"@ && g.edges[m].polaritaet
            != "widerspricht"@
    &&& exists|i: int| 0 <= i < g.nodes.len() && (#[trigger] g.nodes[i]).id == g.edges[k].von
}

proof fn lemma_conflict(g: GraphView, k: int)
    requires
        0 <= k < g.edges.len(),
    ensures
        shows_a_conflict(g, k) <==> !begun(g.edges, k) && has_side(g.edges, g.edges[k].von, false)
            && has_side(g.edges, g.edges[k].von, true) && g.position(g.edges[k].von) is Some,
{
    let von = g.edges[k].von;
    crate::store::model::lemma_position(g.nodes, von, 0);
    if begun(g.edges, k) {
        let m = choose|m: int| 0 <= m < k && (#[trigger] g.edges[m]).von == von;
        assert(g.edges[m].von == von);
    }
    if has_side(g.edges, von, false) {
        let m = choose|m: int|
            0 <= m < g.edges.len() && (#[trigger] g.edges[m]).von == von
                && crate::store::scoring::speaks_against(g.edges[m].polaritaet) == false;
        assert(g.edges[m].von == von);
    }
    if has_side(g.edges, von, true) {
        let m = choose|m: int|
            0 <= m < g.edges.len() && (#[trigger] g.edges[m]).von == von
                && crate::store::scoring::speaks_against(g.edges[m].polaritaet) == true;
        assert(g.edges[m].von == von);
    }
    if g.position(von) is Some {
        assert(g.nodes[g.position(von)->0].id == von);
    }
}

proof fn lemma_conflicts(g: GraphView, n: int) -> (at: Seq<int>)
    requires
        0 <= n <= g.edges.len(),
    ensures
        at.len() == conflict_hints(g, n).len(),
        forall|i: int, j: int| 0 <= i < j < at.len() ==> #[trigger] at[i] < #[trigger] at[j],
        forall|j: int|
            0 <= j < at.len() ==> 0 <= #[trigger] at[j] < n && shows_a_conflict(g, at[j]) && exists|
                i: int,
            |
                0 <= i < g.nodes.len() && g.nodes[i].id == g.edges[at[j]].von && conflict_hints(
                    g,
                    n,
                )[j] == #[trigger] conflict_hint(g.nodes[i]),
        forall|k: int| 0 <= k < n && shows_a_conflict(g, k) ==> #[trigger] at.contains(k),
    decreases n,
{
    if n <= 0 {
        Seq::empty()
    } else {
        let before = lemma_conflicts(g, n - 1);
        lemma_conflict(g, n - 1);
        crate::store::model::lemma_position(g.nodes, g.edges[n - 1].von, 0);
        if shows_a_conflict(g, n - 1) {
            let at = before.push(n - 1);
            lemma_longer(before, n - 1);
            let x = g.position(g.edges[n - 1].von)->0;
            assert(conflict_hints(g, n) == conflict_hints(g, n - 1).push(
                conflict_hint(g.nodes[x]),
            ));
            assert forall|j: int| 0 <= j < at.len() implies 0 <= #[trigger] at[j] < n
                && shows_a_conflict(g, at[j]) && exists|i: int|
                0 <= i < g.nodes.len() && g.nodes[i].id == g.edges[at[j]].von && conflict_hints(
                    g,
                    n,
                )[j] == #[trigger] conflict_hint(g.nodes[i]) by {
                if j < before.len() {
                    assert(at[j] == before[j]);
                    let i = choose|i: int|
                        0 <= i < g.nodes.len() && g.nodes[i].id == g.edges[before[j]].von
                            && conflict_hints(g, n - 1)[j] == #[trigger] conflict_hint(g.nodes[i]);
                    assert(conflict_hints(g, n)[j] == conflict_hint(g.nodes[i]));
                } else {
                    assert(conflict_hints(g, n)[j] == conflict_hint(g.nodes[x]));
                }
            }
            assert forall|k: int| 0 <= k < n && shows_a_conflict(g, k) implies
                #[trigger] at.contains(k) by {
                if k < n - 1 {
                    assert(before.contains(k));
                }
            }
            at
        } else {
            assert(conflict_hints(g, n) == conflict_hints(g, n - 1));
            before
        }
    }
}

/// Each node from which supporting and contradicting edges lead gives a hint, once, in
/// the order in which the edges begin.
pub proof fn conflicts_are_named(g: GraphView) -> (at: Seq<int>)
    ensures
        at.len() == conflict_hints(g, g.edges.len() as int).len(),
        forall|i: int, j: int| 0 <= i < j < at.len() ==> #[trigger] at[i] < #[trigger] at[j],
        forall|j: int|
            0 <= j < at.len() ==> shows_a_conflict(g, #[trigger] at[j]) && exists|i: int|
                0 <= i < g.nodes.len() && (#[trigger] g.nodes[i]).id == g.edges[at[j]].von
                    && conflict_hints(g, g.edges.len() as int)[j] == "\""@ + shortened(
                    trimmed(g.nodes[i].inhalt),
                    50,
                    "…"@,
                )
                    + "\" has BOTH supporting AND contradicting evidence — conflict visible; assess or resolve it."@,
        forall|k: int| shows_a_conflict(g, k) ==> #[trigger] at.contains(k),
{
    let n = g.edges.len() as int;
    let at = lemma_conflicts(g, n);
    assert forall|j: int| 0 <= j < at.len() implies shows_a_conflict(g, #[trigger] at[j]) && exists|
        i: int,
    |
        0 <= i < g.nodes.len() && (#[trigger] g.nodes[i]).id == g.edges[at[j]].von
            && conflict_hints(g, n)[j] == "\""@ + shortened(
            trimmed(g.nodes[i].inhalt),
            50,
            "…"@,
        )
            + "\" has BOTH supporting AND contradicting evidence — conflict visible; assess or resolve it."@ by {
        let i = choose|i: int|
            0 <= i < g.nodes.len() && g.nodes[i].id == g.edges[at[j]].von && conflict_hints(g, n)[j]
                == #[trigger] conflict_hint(g.nodes[i]);
        assert(g.nodes[i].id == g.edges[at[j]].von);
    }
    at
}

/// The node says what a later one says too, and no earlier one does: the same text, white
/// space at the ends and case aside.
pub open spec fn is_said_again(nodes: Seq<NodeView>, i: int) -> bool {
    &&& 0 <= i < nodes.len()
    &&& exists|k: int|
        i < k < nodes.len() && lowercase(trimmed((#[trigger] nodes[k]).inhalt)) == lowercase(
            trimmed(nodes[i].inhalt),
        )
    &&& forall|k: int|
        0 <= k < i ==> lowercase(trimmed((#[trigger] nodes[k]).inhalt)) != lowercase(
            trimmed(nodes[i].inhalt),
        )
}

proof fn lemma_doubles(nodes: Seq<NodeView>, n: int) -> (at: Seq<int>)
    requires
        0 <= n <= nodes.len(),
    ensures
        at.len() == double_hints(nodes, n).len(),
        forall|i: int, j: int| 0 <= i < j < at.len() ==> #[trigger] at[i] < #[trigger] at[j],
        forall|j: int|
            0 <= j < at.len() ==> 0 <= #[trigger] at[j] < n && double_hints(nodes, n)[j]
                == double_hint(nodes[at[j]]) && is_said_again(nodes, at[j]),
        forall|k: int| 0 <= k < n && is_said_again(nodes, k) ==> #[trigger] at.contains(k),
    decreases n,
{
    if n <= 0 {
        Seq::empty()
    } else {
        let before = lemma_doubles(nodes, n - 1);
        let x = nodes[n - 1];
        assert(said_again(nodes, n - 1) == is_said_again(nodes, n - 1)) by {
            if said_again(nodes, n - 1) {
                let k = choose|k: int|
                    n - 1 < k < nodes.len() && same_statement(x, #[trigger] nodes[k]);
                assert(lowercase(trimmed(nodes[k].inhalt)) == lowercase(trimmed(x.inhalt)));
            }
            if is_said_again(nodes, n - 1) {
                let k = choose|k: int|
                    n - 1 < k < nodes.len() && lowercase(trimmed((#[trigger] nodes[k]).inhalt))
                        == lowercase(trimmed(x.inhalt));
                assert(same_statement(x, nodes[k]));
            }
        }
        if said_again(nodes, n - 1) {
            let at = before.push(n - 1);
            lemma_longer(before, n - 1);
            assert forall|j: int| 0 <= j < at.len() implies 0 <= #[trigger] at[j] < n
                && double_hints(nodes, n)[j] == double_hint(nodes[at[j]]) && is_said_again(
                nodes,
                at[j],
            ) by {
                if j < before.len() {
                    assert(at[j] == before[j]);
                }
            }
            assert forall|k: int| 0 <= k < n && is_said_again(nodes, k) implies
                #[trigger] at.contains(k) by {
                if k < n - 1 {
                    assert(before.contains(k));
                }
            }
            at
        } else {
            before
        }
    }
}

/// Each statement that is said twice or more gives one hint, at the first node that says
/// it.
pub proof fn doubles_are_named(nodes: Seq<NodeView>) -> (at: Seq<int>)
    ensures
        at.len() == double_hints(nodes, nodes.len() as int).len(),
        forall|i: int, j: int| 0 <= i < j < at.len() ==> #[trigger] at[i] < #[trigger] at[j],
        forall|j: int|
            0 <= j < at.len() ==> is_said_again(nodes, #[trigger] at[j]) && double_hints(
                nodes,
                nodes.len() as int,
            )[j] == "Possible duplicate: \""@ + shortened(
                trimmed(nodes[at[j]].inhalt),
                50,
                "…"@,
            ) + "\" — merge or link instead of duplicating."@,
        forall|k: int| is_said_again(nodes, k) ==> #[trigger] at.contains(k),
{
    lemma_doubles(nodes, nodes.len() as int)
}

/// Hints come on loose evidence first, then on competing values, on conflicts and on
/// doubles; of all these the first six are given.
pub proof fn the_first_six_hints_are_given(g: GraphView)
    ensures
        ({
            let all = loose_hint(g) + competing_hints(g.fragen, g.fragen.len() as int)
                + conflict_hints(g, g.edges.len() as int) + double_hints(
                g.nodes,
                g.nodes.len() as int,
            );
            &&& all.len() <= 6 ==> hints(g) == all
            &&& all.len() > 6 ==> hints(g) == all.take(6)
        }),
{
    assert(hints(g).len() <= all_hints(g).len());
}

// ---- beginnings ----

/// A session begins untold, unobserved and uncounted; a store begins empty.
pub proof fn all_begins_empty()
    ensures
        told_nothing().informed_node_ids.len() == 0,
        told_nothing().last_informed_datum.len() == 0,
        first_state().jsonl_stem.len() == 0,
        first_state().watermark == 0,
        first_state().rolling_summary.len() == 0,
        first_state().observer_sid.len() == 0,
        first_state().turn_count == 0,
        first_state().last_run_at == 0,
        no_stats().schema == 1,
        no_stats().total_runs == 0 && no_stats().last_run_at == 0 && no_stats().last_ops == 0,
        !no_stats().last_ok && !no_stats().paused,
        no_stats().runs_10m == 0 && no_stats().runs_1h == 0 && no_stats().runs_24h == 0,
        no_stats().min_interval_secs == 0 && no_stats().updated_at == 0,
        no_stats().paused_reason.len() == 0 && no_stats().recent.len() == 0,
        empty_graph().nodes.len() == 0 && empty_graph().edges.len() == 0,
        empty_graph().fragen.len() == 0 && empty_graph().quellen.len() == 0,
{
}

} // verus!

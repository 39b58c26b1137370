//! What the hooks print: the index of what holds now, and the pending hint.

use vstd::prelude::*;
use vstd::string::StringExecFns;

use crate::config::Config;
use crate::dispatch::questions;
use crate::ipc::QuestionView;
use crate::json::{
    field_views, json_of_text, lemma_object_view, settled, sorted_keys, write_json, written, Json,
    JsonView, MAX_DEPTH,
};
use crate::project::{pick_project_dir, project_dir};
use crate::store::model::{node_views, Frage, GraphView, KnowledgeGraph, Node, NodeView};
use crate::store::state::{active_decisions, find_active_decisions, judge_question};
use crate::text;
use crate::text::{less, opt_text, trimmed};

verus! {

// ---- who is asking ----

/// The project of a hook: the directory on its input, or else what the environment names,
/// or else the working directory.
pub fn resolve_project_dir(
    input_cwd: Option<String>,
    claude_env: Option<String>,
    observer_env: Option<String>,
    cwd: Option<String>,
) -> (r: String)
    ensures
        r@ == project_dir(seq![input_cwd, claude_env, observer_env], cwd),
{
    let candidates: Vec<Option<String>> = vec![input_cwd, claude_env, observer_env];
    assert(candidates@ =~= seq![input_cwd, claude_env, observer_env]);
    pick_project_dir(&candidates, cwd)
}

/// The session of a hook: the one in the environment, or else the one on its input.
pub fn resolve_session_id(env_session: Option<String>, input_session: Option<String>) -> (r: String)
    ensures
        r@ == (match crate::config::first_value(seq![env_session, input_session], 0) {
            Some(s) => s,
            None => Seq::empty(),
        }),
{
    let candidates: Vec<Option<String>> = vec![env_session, input_session];
    assert(candidates@ =~= seq![env_session, input_session]);
    match crate::config::first_set(&candidates) {
        Some(s) => s,
        None => String::new(),
    }
}

/// Whether a hook does nothing: it runs inside the observer's own agent, which would
/// otherwise observe itself without end. Other subcommands are no hooks.
pub fn hook_should_bail(internal: bool, sub: Option<&str>) -> (r: bool)
    ensures
        r == (internal && (sub matches Some(s) && (s@ == "knowledge-index"@ || s@
            == "knowledge-hint"@ || s@ == "observer-trigger"@))),
{
    match sub {
        Some(s) => internal && (text::same(s, "knowledge-index") || text::same(s, "knowledge-hint")
            || text::same(s, "observer-trigger")),
        None => false,
    }
}

// ---- the envelope ----

/// The envelope in which a hook's text reaches the model.
pub open spec fn envelope_json(event: Seq<char>, t: Seq<char>) -> JsonView {
    JsonView::Obj(
        seq![
            (
                "hookSpecificOutput"@,
                JsonView::Obj(
                    seq![
                        ("additionalContext"@, JsonView::Str(t)),
                        ("hookEventName"@, JsonView::Str(event)),
                    ],
                ),
            ),
        ],
    )
}

proof fn lemma_envelope_settled(event: Seq<char>, t: Seq<char>)
    ensures
        settled(envelope_json(event, t), MAX_DEPTH as nat),
{
    reveal_strlit("additionalContext");
    reveal_strlit("hookEventName");
    let inner = JsonView::Obj(
        seq![
            ("additionalContext"@, JsonView::Str(t)),
            ("hookEventName"@, JsonView::Str(event)),
        ],
    );
    assert(less("additionalContext"@, "hookEventName"@));
    assert(sorted_keys(inner->Obj_0));
    assert(settled(JsonView::Str(t), 98));
    assert(settled(JsonView::Str(event), 98));
    assert(settled(inner, 99));
    let outer = envelope_json(event, t)->Obj_0;
    assert(sorted_keys(outer));
    assert(outer[0].1 == inner);
}

/// Wraps a text in the envelope of a hook event. The event and the text can be read back
/// from it as they are.
pub fn envelope(event: &str, t: &str) -> (r: String)
    ensures
        r@ == written(envelope_json(event@, t@)),
        json_of_text(r@) == Some(envelope_json(event@, t@)),
{
    broadcast use lemma_object_view;

    let inner: Vec<(String, Json)> = vec![
        ("additionalContext".to_owned(), Json::Str(t.to_owned())),
        ("hookEventName".to_owned(), Json::Str(event.to_owned())),
    ];
    assert(field_views(inner@) =~= seq![
        ("additionalContext"@, JsonView::Str(t@)),
        ("hookEventName"@, JsonView::Str(event@)),
    ]);
    let outer: Vec<(String, Json)> = vec![("hookSpecificOutput".to_owned(), Json::Obj(inner))];
    assert(field_views(outer@) =~= envelope_json(event@, t@)->Obj_0);
    proof {
        lemma_envelope_settled(event@, t@);
    }
    write_json(Json::Obj(outer))
}

// ---- the index ----

/// The first `n` of a list (all of it where it is shorter).
pub open spec fn capped<T>(s: Seq<T>, n: int) -> Seq<T> {
    if s.len() <= n {
        s
    } else {
        s.take(n)
    }
}

/// The lines of the first `n` decisions.
pub open spec fn decision_lines(d: Seq<NodeView>, n: int) -> Seq<char>
    decreases n,
{
    if n <= 0 {
        Seq::empty()
    } else {
        decision_lines(d, n - 1) + "- "@ + d[n - 1].inhalt + "\n"@
    }
}

/// The lines of the first `n` questions.
pub open spec fn question_lines(q: Seq<QuestionView>, n: int) -> Seq<char>
    decreases n,
{
    if n <= 0 {
        Seq::empty()
    } else {
        question_lines(q, n - 1) + "- "@ + q[n - 1].frage + " (leading: "@
            + q[n - 1].fuehrend.unwrap_or("–"@) + ")\n"@
    }
}

/// The index: the decisions that hold and the questions that are open, as many of each as
/// are allowed. Nothing where there are none.
pub open spec fn index_text(g: GraphView, max_decisions: int, max_questions: int) -> Option<
    Seq<char>,
> {
    let d = capped(active_decisions(g), max_decisions);
    let q = capped(questions(g, false, g.fragen.len() as int), max_questions);
    if d.len() == 0 && q.len() == 0 {
        None
    } else {
        Some(
            "Project knowledge (current state):\n"@ + (if d.len() > 0 {
                "Active decisions:\n"@ + decision_lines(d, d.len() as int)
            } else {
                Seq::empty()
            }) + (if q.len() > 0 {
                "Open questions:\n"@ + question_lines(q, q.len() as int)
            } else {
                Seq::empty()
            }),
        )
    }
}

/// An open question with its leading value.
struct OpenQuestion {
    frage: String,
    fuehrend: Option<String>,
}

/// What the listed questions show.
spec fn shows(open: Seq<OpenQuestion>, q: Seq<QuestionView>) -> bool {
    &&& open.len() == q.len()
    &&& forall|k: int|
        0 <= k < q.len() ==> (#[trigger] open[k]).frage@ == q[k].frage && opt_text(open[k].fuehrend)
            == q[k].fuehrend
}

fn find_open(graph: &KnowledgeGraph, max: usize) -> (r: Vec<OpenQuestion>)
    ensures
        shows(
            r@,
            capped(questions(graph@, false, graph@.fragen.len() as int), max as int),
        ),
{
    let ghost g = graph@;
    let mut out: Vec<OpenQuestion> = Vec::new();
    let mut i: usize = 0;
    while i < graph.fragen.len()
        invariant
            g == graph@,
            i <= graph.fragen.len(),
            shows(out@, capped(questions(g, false, i as int), max as int)),
        decreases graph.fragen.len() - i,
    {
        let fr: &Frage = &graph.fragen[i];
        assert(g.fragen[i as int] == fr@);
        let (fuehrend, answered) = judge_question(graph, &fr.id);
        let ghost before = questions(g, false, i as int);
        let ghost after = questions(g, false, i + 1);
        if !answered && out.len() < max {
            out.push(OpenQuestion { frage: fr.inhalt.clone(), fuehrend });
        }
        proof {
            if before.len() >= max {
                assert(capped(before, max as int) =~= capped(after, max as int));
            }
        }
        i += 1;
    }
    out
}

/// The index text of a scored graph.
pub fn build_index_text(g: &KnowledgeGraph, max_decisions: usize, max_questions: usize) -> (r:
    Option<String>)
    ensures
        opt_text(r) == index_text(g@, max_decisions as int, max_questions as int),
{
    let mut decisions: Vec<Node> = find_active_decisions(g);
    assert(active_decisions(g@).len() == decisions@.len());
    let ghost d = capped(active_decisions(g@), max_decisions as int);
    if decisions.len() > max_decisions {
        decisions.truncate(max_decisions);
    }
    assert(node_views(decisions@) =~= d);
    let open: Vec<OpenQuestion> = find_open(g, max_questions);
    let ghost q = capped(questions(g@, false, g@.fragen.len() as int), max_questions as int);
    if decisions.len() == 0 && open.len() == 0 {
        return None;
    }
    let mut out: String = "Project knowledge (current state):\n".to_owned();
    let ghost head = out@;
    if decisions.len() > 0 {
        out.append("Active decisions:\n");
        let ghost start = out@;
        let mut i: usize = 0;
        assert(start + decision_lines(d, 0) =~= start);
        while i < decisions.len()
            invariant
                node_views(decisions@) == d,
                i <= decisions.len(),
                out@ == start + decision_lines(d, i as int),
            decreases decisions.len() - i,
        {
            assert(d[i as int] == decisions@[i as int]@);
            out.append("- ");
            out.append(&decisions[i].inhalt);
            out.append("\n");
            assert(out@ =~= start + decision_lines(d, i + 1));
            i += 1;
        }
    }
    let ghost middle = out@;
    if open.len() > 0 {
        out.append("Open questions:\n");
        let ghost start = out@;
        let mut i: usize = 0;
        assert(start + question_lines(q, 0) =~= start);
        while i < open.len()
            invariant
                shows(open@, q),
                i <= open.len(),
                out@ == start + question_lines(q, i as int),
            decreases open.len() - i,
        {
            assert(open@[i as int].frage@ == q[i as int].frage);
            out.append("- ");
            out.append(&open[i].frage);
            out.append(" (leading: ");
            match &open[i].fuehrend {
                Some(w) => out.append(w),
                None => out.append("–"),
            }
            out.append(")\n");
            assert(out@ =~= start + question_lines(q, i + 1));
            i += 1;
        }
    }
    assert(out@ =~= index_text(g@, max_decisions as int, max_questions as int)->0);
    Some(out)
}

/// What the index hook prints; nothing where knowledge is disabled or there is nothing to
/// tell.
pub fn build_index_envelope(graph: &KnowledgeGraph, cfg: &Config) -> (r: Option<String>)
    ensures
        match index_text(graph@, cfg.max_decisions as int, cfg.max_questions as int) {
            Some(t) => if cfg.enabled && graph@.nodes.len() > 0 {
                r matches Some(s) && s@ == written(envelope_json("SessionStart"@, t))
                    && json_of_text(s@) == Some(envelope_json("SessionStart"@, t))
            } else {
                r is None
            },
            None => r is None,
        },
{
    if !cfg.enabled {
        return None;
    }
    assert(graph@.nodes.len() == graph.nodes@.len());
    if graph.nodes.len() == 0 {
        return None;
    }
    match build_index_text(graph, cfg.max_decisions, cfg.max_questions) {
        Some(t) => Some(envelope("SessionStart", &t)),
        None => None,
    }
}

/// What the hint hook prints of the pending hint; nothing where it is blank.
pub fn build_hint_envelope(pending: &str) -> (r: Option<String>)
    ensures
        match r {
            Some(s) => trimmed(pending@).len() > 0 && s@ == written(
                envelope_json("UserPromptSubmit"@, pending@),
            ) && json_of_text(s@) == Some(envelope_json("UserPromptSubmit"@, pending@)),
            None => trimmed(pending@).len() == 0,
        },
{
    if text::is_blank(pending) {
        None
    } else {
        Some(envelope("UserPromptSubmit", pending))
    }
}

} // verus!

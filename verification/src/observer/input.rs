//! What the observer is given: the new turns in prose, and an excerpt of the graph.

use vstd::prelude::*;
use vstd::string::StringExecFns;

use crate::json::{field, item_views, json_of_text, parse_json, text_field, Json, JsonView};
use crate::store::filter::{find_matches, is_match, no_filter, FilterView, QueryFilter};
use crate::store::model::{
    quelle_views, GraphView, KnowledgeGraph, Node, NodeView, Quelle, QuelleView,
};
use crate::text;
use crate::text::{joined, shortened, texts, trimmed};

verus! {

broadcast use {crate::json::lemma_array_view, crate::json::lemma_object_view};

// ---- turns ----

/// A member of a member.
pub open spec fn inner_field(j: JsonView, outer: Seq<char>, key: Seq<char>) -> Option<JsonView> {
    match field(j, outer) {
        Some(m) => field(m, key),
        None => None,
    }
}

/// The text of a block: its `text`, or else its `content`.
pub open spec fn block_text(b: JsonView) -> Option<Seq<char>> {
    match text_field(b, "text"@) {
        Some(t) => Some(t),
        None => text_field(b, "content"@),
    }
}

/// The texts of the first `n` blocks.
pub open spec fn block_texts(items: Seq<JsonView>, n: int) -> Seq<Seq<char>>
    decreases n,
{
    if n <= 0 {
        Seq::empty()
    } else {
        let before = block_texts(items, n - 1);
        match block_text(items[n - 1]) {
            Some(t) => before.push(t),
            None => before,
        }
    }
}

/// The readable text of a transcript line.
pub open spec fn line_text(j: JsonView) -> Seq<char> {
    match inner_field(j, "message"@, "content"@) {
        Some(JsonView::Str(s)) => s,
        Some(JsonView::Arr(items)) => joined(block_texts(items, items.len() as int), "\n"@),
        _ => Seq::empty(),
    }
}

/// Who speaks in a transcript line: the role of the message, or else the type of the
/// line.
pub open spec fn role_of(j: JsonView) -> Seq<char> {
    match inner_field(j, "message"@, "role"@) {
        Some(JsonView::Str(s)) => s,
        _ => match text_field(j, "type"@) {
            Some(t) => t,
            None => Seq::empty(),
        },
    }
}

/// How a role is shown.
pub open spec fn role_label(role: Seq<char>) -> Seq<char> {
    if role == "user"@ {
        "User"@
    } else if role == "assistant"@ {
        "Assistant"@
    } else if role.len() > 0 {
        role
    } else {
        "?"@
    }
}

/// A transcript line in prose. A line without text gives nothing; a line that is no JSON
/// is kept as it is.
pub open spec fn turn_text(line: Seq<char>) -> Seq<char> {
    match json_of_text(line) {
        None => line + "\n"@,
        Some(j) => if trimmed(line_text(j)).len() == 0 {
            Seq::empty()
        } else {
            role_label(role_of(j)) + ": "@ + trimmed(line_text(j)) + "\n\n"@
        },
    }
}

/// The first `n` transcript lines in prose.
pub open spec fn turns(lines: Seq<Seq<char>>, n: int) -> Seq<char>
    decreases n,
{
    if n <= 0 {
        Seq::empty()
    } else {
        turns(lines, n - 1) + turn_text(lines[n - 1])
    }
}

/// The readable text of a transcript line.
pub fn extract_text(j: &Json) -> (r: String)
    ensures
        r@ == line_text(j@),
{
    let content: &Json = match j.get("message") {
        Some(m) => match m.get("content") {
            Some(c) => c,
            None => return String::new(),
        },
        None => return String::new(),
    };
    match content {
        Json::Str(s) => s.clone(),
        Json::Arr(items) => {
            let ghost all = item_views(items@);
            let mut parts: Vec<String> = Vec::new();
            let mut i: usize = 0;
            assert(texts(parts@) =~= block_texts(all, 0));
            while i < items.len()
                invariant
                    all == item_views(items@),
                    i <= items.len(),
                    texts(parts@) == block_texts(all, i as int),
                decreases items.len() - i,
            {
                let ghost before = parts@;
                assert(all[i as int] == items@[i as int]@);
                match items[i].get_text("text") {
                    Some(t) => {
                        parts.push(t);
                        assert(texts(parts@) =~= texts(before).push(t@));
                    },
                    None => {
                        if let Some(t) = items[i].get_text("content") {
                            parts.push(t);
                            assert(texts(parts@) =~= texts(before).push(t@));
                        }
                    },
                }
                i += 1;
            }
            text::join(&parts, "\n")
        },
        _ => String::new(),
    }
}

fn get_role(j: &Json) -> (r: String)
    ensures
        r@ == role_of(j@),
{
    if let Some(m) = j.get("message") {
        if let Some(Json::Str(s)) = m.get("role") {
            return s.clone();
        }
    }
    match j.get_text("type") {
        Some(t) => t,
        None => String::new(),
    }
}

fn get_label(role: String) -> (r: String)
    ensures
        r@ == role_label(role@),
{
    if text::same(&role, "user") {
        "User".to_owned()
    } else if text::same(&role, "assistant") {
        "Assistant".to_owned()
    } else if !role.as_str().is_empty() {
        role
    } else {
        "?".to_owned()
    }
}

/// Transcript lines in prose.
pub fn format_turns(lines: &Vec<String>) -> (r: String)
    ensures
        r@ == turns(texts(lines@), lines@.len() as int),
{
    let ghost all = texts(lines@);
    let mut out: String = String::new();
    let mut i: usize = 0;
    while i < lines.len()
        invariant
            all == texts(lines@),
            i <= lines.len(),
            out@ == turns(all, i as int),
        decreases lines.len() - i,
    {
        let line: &String = &lines[i];
        let ghost before = out@;
        assert(all[i as int] == line@);
        match parse_json(line) {
            Some(j) => {
                let t: String = text::trim(&extract_text(&j));
                if !t.as_str().is_empty() {
                    let label: String = get_label(get_role(&j));
                    out.append(&label);
                    out.append(": ");
                    out.append(&t);
                    out.append("\n\n");
                    assert(out@ =~= before + turn_text(line@));
                } else {
                    assert(out@ =~= before + turn_text(line@));
                }
            },
            None => {
                out.append(line);
                out.append("\n");
                assert(out@ =~= before + turn_text(line@));
            },
        }
        i += 1;
    }
    out
}

// ---- the graph ----

/// A node on one line.
pub open spec fn excerpt_line(n: NodeView) -> Seq<char> {
    "- ["@ + n.id + "] ("@ + n.typ.code() + "/"@ + n.status + ") "@ + shortened(
        n.inhalt,
        100,
        "…"@,
    ) + (if n.tags.len() > 0 {
        "  tags: "@ + joined(n.tags, ", "@)
    } else {
        Seq::empty()
    }) + "\n"@
}

/// The matches among the first `n` nodes, one line each.
pub open spec fn excerpt_lines(g: GraphView, f: FilterView, n: int) -> Seq<char>
    decreases n,
{
    if n <= 0 {
        Seq::empty()
    } else {
        let before = excerpt_lines(g, f, n - 1);
        if is_match(g, f, n - 1) {
            before + excerpt_line(g.nodes[n - 1])
        } else {
            before
        }
    }
}

/// The best scored nodes of a graph, as many as the limit allows, one line each.
pub open spec fn excerpt(g: GraphView, limit: usize) -> Seq<char> {
    excerpt_lines(g, FilterView { limit: Some(limit), ..no_filter() }, g.nodes.len() as int)
}

fn write_excerpt_line(n: &Node) -> (r: String)
    ensures
        r@ == excerpt_line(n@),
{
    let mut out: String = String::new();
    out.append("- [");
    out.append(&n.id);
    out.append("] (");
    out.append(n.typ.as_code());
    out.append("/");
    out.append(&n.status);
    out.append(") ");
    out.append(&text::shorten(&n.inhalt, 100, "…"));
    assert(n@.tags.len() == n.tags@.len());
    if n.tags.len() > 0 {
        out.append("  tags: ");
        out.append(&text::join(&n.tags, ", "));
    }
    out.append("\n");
    assert(out@ =~= excerpt_line(n@));
    out
}

/// An excerpt of a scored graph: its best nodes, as many as the limit allows, and no others.
pub fn dag_excerpt(graph: &KnowledgeGraph, limit: usize) -> (r: String)
    ensures
        r@ == excerpt(graph@, limit),
{
    let mut f: QueryFilter = QueryFilter::default();
    f.limit = Some(limit);
    assert(f@ =~= (FilterView { limit: Some(limit), ..no_filter() }));
    let hits: Vec<bool> = find_matches(graph, &f);
    let ghost g = graph@;
    let mut out: String = String::new();
    let mut i: usize = 0;
    while i < graph.nodes.len()
        invariant
            g == graph@,
            i <= graph.nodes.len(),
            hits.len() == graph.nodes.len(),
            forall|k: int| 0 <= k < hits.len() ==> #[trigger] hits@[k] == is_match(g, f@, k),
            out@ == excerpt_lines(g, f@, i as int),
        decreases graph.nodes.len() - i,
    {
        let n: &Node = &graph.nodes[i];
        assert(g.nodes[i as int] == n@);
        assert(hits@[i as int] == is_match(g, f@, i as int));
        if hits[i] {
            out.append(&write_excerpt_line(n));
        }
        i += 1;
    }
    out
}

// ---- the project's documents ----

/// The line that lists a document: its id and its title.
pub open spec fn document_line(q: QuelleView) -> Seq<char> {
    "- ["@ + q.id + "] "@ + q.titel + "\n"@
}

/// The lines that list the first `n` documents.
pub open spec fn document_lines(documents: Seq<QuelleView>, n: int) -> Seq<char>
    decreases n,
{
    if n <= 0 {
        Seq::empty()
    } else {
        document_lines(documents, n - 1) + document_line(documents[n - 1])
    }
}

/// The task with the documents that can be cited. Where there are none nothing is added.
pub open spec fn task_with_documents(task: Seq<char>, documents: Seq<QuelleView>) -> Seq<char> {
    if documents.len() == 0 {
        task
    } else {
        task + "\n\nAvailable project documents:\n"@ + document_lines(
            documents,
            documents.len() as int,
        )
    }
}

/// Adds to a task the documents that can be cited, each with its exact id.
pub fn list_documents(task: &str, documents: &Vec<Quelle>) -> (r: String)
    ensures
        r@ == task_with_documents(task@, quelle_views(documents@)),
{
    let ghost all = quelle_views(documents@);
    let mut out: String = task.to_owned();
    if documents.len() == 0 {
        return out;
    }
    out.append("\n\nAvailable project documents:\n");
    let ghost head = out@;
    let mut i: usize = 0;
    assert(out@ =~= head + document_lines(all, 0));
    while i < documents.len()
        invariant
            all == quelle_views(documents@),
            i <= documents.len(),
            out@ == head + document_lines(all, i as int),
        decreases documents.len() - i,
    {
        let q: &Quelle = &documents[i];
        assert(all[i as int] == q@);
        out.append("- [");
        out.append(&q.id);
        out.append("] ");
        out.append(&q.titel);
        out.append("\n");
        assert(out@ =~= head + document_lines(all, i as int) + document_line(q@));
        assert(out@ =~= head + document_lines(all, i + 1));
        i += 1;
    }
    out
}

/// Every document is listed with its id, so that each can be cited.
pub proof fn each_document_is_listed(task: Seq<char>, documents: Seq<QuelleView>, i: int)
    requires
        0 <= i < documents.len(),
    ensures
        ({
            let r = task_with_documents(task, documents);
            exists|a: int, b: int|
                0 <= a <= b <= r.len() && #[trigger] r.subrange(a, b) == document_line(documents[i])
        }),
{
    let head = task + "\n\nAvailable project documents:\n"@;
    let n = documents.len() as int;
    lemma_listed_at(documents, i, n);
    let lines = document_lines(documents, n);
    let (a, b) = choose|a: int, b: int|
        0 <= a <= b <= lines.len() && #[trigger] lines.subrange(a, b) == document_line(
            documents[i],
        );
    let r = task_with_documents(task, documents);
    assert(r == head + lines);
    assert(r.subrange(head.len() + a, head.len() + b) =~= lines.subrange(a, b));
}

proof fn lemma_listed_at(documents: Seq<QuelleView>, i: int, n: int)
    requires
        0 <= i < n <= documents.len(),
    ensures
        exists|a: int, b: int|
            0 <= a <= b <= document_lines(documents, n).len() && #[trigger] document_lines(
                documents,
                n,
            ).subrange(a, b) == document_line(documents[i]),
    decreases n,
{
    let lines = document_lines(documents, n);
    let before = document_lines(documents, n - 1);
    if i == n - 1 {
        assert(lines.subrange(before.len() as int, lines.len() as int) =~= document_line(
            documents[i],
        ));
    } else {
        lemma_listed_at(documents, i, n - 1);
        let (a, b) = choose|a: int, b: int|
            0 <= a <= b <= before.len() && #[trigger] before.subrange(a, b) == document_line(
                documents[i],
            );
        assert(lines.subrange(a, b) =~= before.subrange(a, b));
    }
}

} // verus!

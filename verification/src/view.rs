//! The read-only viewer: what it serves, and for which project.

use vstd::prelude::*;
use vstd::slice::slice_subrange;
use vstd::string::StringExecFns;

use crate::store::lookup::{split_words, words};
use crate::text;
use crate::text::{find_from, first_break, opt_text, texts, trimmed};

verus! {

/// After how many seconds without a request the viewer stops.
pub const IDLE_SHUTDOWN_SECS: u64 = 1800;

/// The page: it asks for the graph every few seconds and lists it. Nothing is loaded from
/// elsewhere.
pub const INDEX_HTML: &'static str =
    "<!DOCTYPE html>
<html lang=\"en\">
<head>
<meta charset=\"utf-8\">
<title>Knowledge graph</title>
<style>
body { font-family: sans-serif; margin: 1.5rem; }
li { margin: 0.3rem 0; }
.status { color: #666; }
</style>
</head>
<body>
<h1>Knowledge graph</h1>
<p id=\"count\"></p>
<ul id=\"nodes\"></ul>
<h2>Links</h2>
<ul id=\"edges\"></ul>
<h2>Questions</h2>
<ul id=\"questions\"></ul>
<script>
function fill(id, items) {
  const list = document.getElementById(id);
  list.replaceChildren();
  for (const text of items) {
    const entry = document.createElement('li');
    entry.textContent = text;
    list.appendChild(entry);
  }
}
async function refresh() {
  try {
    const graph = await (await fetch('/graph.json')).json();
    const titles = new Map(graph.nodes.map(n => [n.id, n.inhalt]));
    const title = id => titles.get(id) || id;
    document.getElementById('count').textContent =
      graph.nodes.length + ' nodes, ' + graph.edges.length + ' links';
    fill('nodes', graph.nodes.map(n =>
      n.typ + ' / ' + n.status + ' / ' + n.score.toFixed(2) + ': ' + n.inhalt));
    fill('edges', graph.edges.map(e =>
      title(e.von) + ' ' + e.polaritaet + ' ' + title(e.zu)));
    fill('questions', graph.fragen.map(q => q.inhalt + ': ' + q.werte.join(' / ')));
  } catch (e) {
    document.getElementById('count').textContent = 'The viewer is not running.';
  }
}
refresh();
setInterval(refresh, 4000);
</script>
</body>
</html>
";

// ---- which project ----

/// A text without the white space around it, where it is not blank.
pub open spec fn filled(o: Option<&str>) -> Option<Seq<char>> {
    match o {
        Some(s) => if trimmed(s@).len() > 0 {
            Some(trimmed(s@))
        } else {
            None
        },
        None => None,
    }
}

fn get_filled(o: Option<&str>) -> (r: Option<String>)
    ensures
        opt_text(r) == filled(o),
{
    match o {
        Some(s) => {
            let t: String = text::trim(s);
            if t.as_str().is_empty() {
                None
            } else {
                Some(t)
            }
        },
        None => None,
    }
}

/// The project to show: the one that was named, or else what the environment names, or
/// else the working directory.
pub open spec fn shown_project(
    arg: Option<&str>,
    claude_env: Option<&str>,
    observer_env: Option<&str>,
    cwd: Option<String>,
) -> Seq<char> {
    match filled(arg) {
        Some(d) => d,
        None => match filled(claude_env) {
            Some(d) => d,
            None => match filled(observer_env) {
                Some(d) => d,
                None => match cwd {
                    Some(d) => d@,
                    None => "."@,
                },
            },
        },
    }
}

/// The project to show.
pub fn resolve_project_dir_from(
    arg: Option<&str>,
    claude_env: Option<&str>,
    observer_env: Option<&str>,
    cwd: Option<String>,
) -> (r: String)
    ensures
        r@ == shown_project(arg, claude_env, observer_env, cwd),
{
    if let Some(d) = get_filled(arg) {
        return d;
    }
    if let Some(d) = get_filled(claude_env) {
        return d;
    }
    if let Some(d) = get_filled(observer_env) {
        return d;
    }
    match cwd {
        Some(d) => d,
        None => ".".to_owned(),
    }
}

// ---- what is served ----

/// The first line of a request.
pub open spec fn request_line(head: Seq<char>) -> Seq<char> {
    match first_break(head, 0) {
        Some(i) => head.take(i),
        None => head,
    }
}

/// A path without its query string.
pub open spec fn without_query(raw: Seq<char>) -> Seq<char> {
    match find_from(raw, seq!['?'], 0) {
        Some(i) => raw.take(i),
        None => raw,
    }
}

/// The path that a request asks for: the second word of a first line that begins with GET,
/// without its query string.
pub open spec fn request_path(head: Seq<char>) -> Option<Seq<char>> {
    let w = words(request_line(head));
    if w.len() >= 2 && w[0] == "GET"@ {
        Some(without_query(w[1]))
    } else {
        None
    }
}

/// The path that a request asks for; nothing for anything but a GET.
pub fn parse_request_path(head: &str) -> (r: Option<String>)
    ensures
        opt_text(r) == request_path(head@),
{
    let v: Vec<char> = text::chars_of(head);
    let end: usize = match text::find_break(&v, 0) {
        Some(i) => i,
        None => v.len(),
    };
    assert(v@.subrange(0, end as int) =~= request_line(v@));
    let line: String = text::string_of(slice_subrange(v.as_slice(), 0, end));
    let w: Vec<String> = split_words(&line);
    assert(texts(w@).len() == w@.len());
    if w.len() < 2 {
        return None;
    }
    assert(texts(w@)[0] == w@[0]@ && texts(w@)[1] == w@[1]@);
    if !text::same(&w[0], "GET") {
        return None;
    }
    let raw: Vec<char> = text::chars_of(&w[1]);
    let mark: Vec<char> = vec!['?'];
    assert(mark@ =~= seq!['?']);
    match text::find(&raw, &mark, 0) {
        Some(i) => {
            assert(raw@.subrange(0, i as int) =~= raw@.take(i as int));
            Some(text::string_of(slice_subrange(raw.as_slice(), 0, i)))
        },
        None => Some(w[1].clone()),
    }
}

/// What the viewer serves.
#[derive(Debug, Clone, Copy, PartialEq, Eq, Structural)]
pub enum Route {
    Page,
    Graph,
    NotFound,
}

/// What is served for a path.
pub open spec fn route_of(path: Option<Seq<char>>) -> Route {
    match path {
        Some(p) => if p == "/"@ || p == "/index.html"@ {
            Route::Page
        } else if p == "/graph.json"@ {
            Route::Graph
        } else {
            Route::NotFound
        },
        None => Route::NotFound,
    }
}

/// What is served for a request.
pub fn route(head: &str) -> (r: Route)
    ensures
        r == route_of(request_path(head@)),
{
    match parse_request_path(head) {
        Some(p) => if text::same(&p, "/") || text::same(&p, "/index.html") {
            Route::Page
        } else if text::same(&p, "/graph.json") {
            Route::Graph
        } else {
            Route::NotFound
        },
        None => Route::NotFound,
    }
}

/// The status line and the headers of a reply with a body of `len` bytes.
pub open spec fn response_head(r: Route, len: nat) -> Seq<char> {
    let status = if r == Route::NotFound {
        "404 Not Found"@
    } else {
        "200 OK"@
    };
    let kind = match r {
        Route::Page => "text/html; charset=utf-8"@,
        Route::Graph => "application/json"@,
        Route::NotFound => "text/plain; charset=utf-8"@,
    };
    "HTTP/1.1 "@ + status + "\r\nContent-Type: "@ + kind + "\r\nContent-Length: "@ + text::decimal(
        len,
    ) + "\r\nConnection: close\r\nCache-Control: no-store\r\n\r\n"@
}

/// The status line and the headers of a reply.
pub fn write_response_head(r: Route, len: usize) -> (s: String)
    ensures
        s@ == response_head(r, len as nat),
{
    let status: &str = match r {
        Route::NotFound => "404 Not Found",
        _ => "200 OK",
    };
    let kind: &str = match r {
        Route::Page => "text/html; charset=utf-8",
        Route::Graph => "application/json",
        Route::NotFound => "text/plain; charset=utf-8",
    };
    "HTTP/1.1 ".to_owned().concat(status).concat("\r\nContent-Type: ").concat(kind).concat(
        "\r\nContent-Length: ",
    ).concat(&text::number(len as u64)).concat(
        "\r\nConnection: close\r\nCache-Control: no-store\r\n\r\n",
    )
}

} // verus!
